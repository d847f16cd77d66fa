use vstd::prelude::*;

verus! {

/// The mathematical model of an error: each variant carries the offending
/// text (an identifier, an operator, or the run of characters) as a
/// sequence of characters.
pub enum ErrorModel {
    Lexical(Seq<char>),
    Syntax(Seq<char>),
    UndefinedIdentifier(Seq<char>),
    UndefinedFunction(Seq<char>),
    TypeErr(Seq<char>),
    DivisionByZero,
    ScopeUnderflow,
}

/// A fatal error of the pipeline. Lexical and syntax errors are found
/// before execution begins; the remaining kinds abort execution at the
/// point of failure. No kind is recoverable from inside the language.
#[derive(Debug)]
pub enum EgoError {
    /// An unterminated string or an unrecognized character run reached the parser.
    LexicalError(String),
    /// The token sequence is structurally malformed; the payload names what was found or missing.
    SyntaxError(String),
    /// An identifier was read that no frame of the scope stack binds.
    UndefinedIdentifier(String),
    /// A call to a function other than the `print` builtin.
    UndefinedFunction(String),
    /// An operator, builtin or condition was given a value of the wrong kind.
    TypeError(String),
    /// The right operand of `/` evaluated to zero.
    DivisionByZero,
    /// An attempt to pop the root frame of the scope stack.
    ScopeUnderflow,
}

impl View for EgoError {
    type V = ErrorModel;

    open spec fn view(&self) -> ErrorModel {
        match self {
            EgoError::LexicalError(t) => ErrorModel::Lexical(t@),
            EgoError::SyntaxError(t) => ErrorModel::Syntax(t@),
            EgoError::UndefinedIdentifier(t) => ErrorModel::UndefinedIdentifier(t@),
            EgoError::UndefinedFunction(t) => ErrorModel::UndefinedFunction(t@),
            EgoError::TypeError(t) => ErrorModel::TypeErr(t@),
            EgoError::DivisionByZero => ErrorModel::DivisionByZero,
            EgoError::ScopeUnderflow => ErrorModel::ScopeUnderflow,
        }
    }
}

/// The diagnostic line for an error: the error kind's name, then the
/// offending text where one is carried.
pub open spec fn spec_message(e: ErrorModel) -> Seq<char> {
    match e {
        ErrorModel::Lexical(t) => "LexicalError: "@ + t,
        ErrorModel::Syntax(t) => "SyntaxError: "@ + t,
        ErrorModel::UndefinedIdentifier(t) => "UndefinedIdentifier: "@ + t,
        ErrorModel::UndefinedFunction(t) => "UndefinedFunction: "@ + t,
        ErrorModel::TypeErr(t) => "TypeError: "@ + t,
        ErrorModel::DivisionByZero => "DivisionByZero"@,
        ErrorModel::ScopeUnderflow => "ScopeUnderflow"@,
    }
}

impl EgoError {
    /// Renders the diagnostic line that names the error kind and, where
    /// one is available, the offending identifier, operator or text.
    pub fn message(&self) -> (r: String)
        ensures
            r@ == spec_message(self@),
    {
        match self {
            EgoError::LexicalError(t) => {
                let mut s = String::from_str("LexicalError: ");
                s.append(t.as_str());
                s
            }
            EgoError::SyntaxError(t) => {
                let mut s = String::from_str("SyntaxError: ");
                s.append(t.as_str());
                s
            }
            EgoError::UndefinedIdentifier(t) => {
                let mut s = String::from_str("UndefinedIdentifier: ");
                s.append(t.as_str());
                s
            }
            EgoError::UndefinedFunction(t) => {
                let mut s = String::from_str("UndefinedFunction: ");
                s.append(t.as_str());
                s
            }
            EgoError::TypeError(t) => {
                let mut s = String::from_str("TypeError: ");
                s.append(t.as_str());
                s
            }
            EgoError::DivisionByZero => String::from_str("DivisionByZero"),
            EgoError::ScopeUnderflow => String::from_str("ScopeUnderflow"),
        }
    }
}

} // verus!
