//! The error taxonomy shared by the tokenizer, the parser and the
//! generation engine.
use vstd::prelude::*;
use vstd::string::StringExecFns;

use crate::strutil::{dec_digits, usize_to_string};

verus! {

/// An error raised while compiling a grammar or while generating a string.
///
/// The `String` payloads name the parse point or the offending token text;
/// the `usize` payloads are token indices, so diagnostics can reference the
/// place in the token stream where the failure happened.
#[derive(Debug, Clone, PartialEq)]
pub enum ErrorValue {
    /// A structurally unexpected token: parse point, token text, token index.
    InvalidToken(String, String, usize),
    /// The token stream ended inside a construct: parse point, token index.
    EndOfToken(String, usize),
    /// An unrecognized piece of source text surfaced by the tokenizer:
    /// token text, token index.
    UnknownToken(String, usize),
    /// An exclusion pattern referenced a variable, which exclusions forbid.
    ExcludeIncludeVariable,
    /// No pattern could be selected because every weight is zero.
    NotFoundPattern,
    /// A referenced variable has no definition.
    NotFoundVariable(String),
    /// The exclusion retry budget was exhausted.
    OverRetryCount,
    /// A free-form message with an optional token index.
    ErrorMessage(String, Option<usize>),
}

/// The mathematical shadow of [`ErrorValue`]: strings become character
/// sequences and indices become unbounded integers.
pub enum ErrV {
    InvalidToken(Seq<char>, Seq<char>, int),
    EndOfToken(Seq<char>, int),
    UnknownToken(Seq<char>, int),
    ExcludeIncludeVariable,
    NotFoundPattern,
    NotFoundVariable(Seq<char>),
    OverRetryCount,
    ErrorMessage(Seq<char>, Option<int>),
}

impl DeepView for ErrorValue {
    type V = ErrV;

    open spec fn deep_view(&self) -> ErrV {
        match self {
            ErrorValue::InvalidToken(point, tok, i) => ErrV::InvalidToken(point@, tok@, *i as int),
            ErrorValue::EndOfToken(point, i) => ErrV::EndOfToken(point@, *i as int),
            ErrorValue::UnknownToken(tok, i) => ErrV::UnknownToken(tok@, *i as int),
            ErrorValue::ExcludeIncludeVariable => ErrV::ExcludeIncludeVariable,
            ErrorValue::NotFoundPattern => ErrV::NotFoundPattern,
            ErrorValue::NotFoundVariable(name) => ErrV::NotFoundVariable(name@),
            ErrorValue::OverRetryCount => ErrV::OverRetryCount,
            ErrorValue::ErrorMessage(msg, at) => ErrV::ErrorMessage(
                msg@,
                match at {
                    Some(i) => Some(*i as int),
                    None => None,
                },
            ),
        }
    }
}

/// The text of an error whose index payload is known to come from a `usize`.
pub open spec fn err_message(e: ErrV) -> Seq<char> {
    match e {
        ErrV::InvalidToken(point, tok, i) => "Invalid token in "@ + point + " : "@ + tok
            + ", index: "@ + dec_digits(i as nat),
        ErrV::EndOfToken(point, i) => "End of token in "@ + point + " : index: "@ + dec_digits(
            i as nat,
        ),
        ErrV::UnknownToken(tok, i) => "Unknown token : "@ + tok + ", index: "@ + dec_digits(
            i as nat,
        ),
        ErrV::ExcludeIncludeVariable => "Exclude Pattern can't include variable."@,
        ErrV::NotFoundPattern => "Not found patterns."@,
        ErrV::NotFoundVariable(key) => "Not found variable: "@ + key,
        ErrV::OverRetryCount => "Retry count is over limit."@,
        ErrV::ErrorMessage(message, at) => match at {
            Some(i) => message + ": index: "@ + dec_digits(i as nat),
            None => message,
        },
    }
}

impl ErrorValue {
    /// A human-readable description of the error, in the same shape for every
    /// variant as the structured payload.
    pub fn to_message(&self) -> (r: String)
        ensures
            r@ == err_message(self.deep_view()),
    {
        match self {
            ErrorValue::InvalidToken(point, tok, i) => {
                let mut s = String::from_str("Invalid token in ");
                s.append(point.as_str());
                s.append(" : ");
                s.append(tok.as_str());
                s.append(", index: ");
                s.append(usize_to_string(*i).as_str());
                s
            },
            ErrorValue::EndOfToken(point, i) => {
                let mut s = String::from_str("End of token in ");
                s.append(point.as_str());
                s.append(" : index: ");
                s.append(usize_to_string(*i).as_str());
                s
            },
            ErrorValue::UnknownToken(tok, i) => {
                let mut s = String::from_str("Unknown token : ");
                s.append(tok.as_str());
                s.append(", index: ");
                s.append(usize_to_string(*i).as_str());
                s
            },
            ErrorValue::ExcludeIncludeVariable => String::from_str(
                "Exclude Pattern can't include variable.",
            ),
            ErrorValue::NotFoundPattern => String::from_str("Not found patterns."),
            ErrorValue::NotFoundVariable(key) => {
                let mut s = String::from_str("Not found variable: ");
                s.append(key.as_str());
                s
            },
            ErrorValue::OverRetryCount => String::from_str("Retry count is over limit."),
            ErrorValue::ErrorMessage(message, at) => {
                match at {
                    Some(i) => {
                        let mut s = message.clone();
                        s.append(": index: ");
                        s.append(usize_to_string(*i).as_str());
                        s
                    },
                    None => message.clone(),
                }
            },
        }
    }
}

} // verus!
