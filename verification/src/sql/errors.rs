//! The two kinds of error that reading a statement can end in.

use vstd::prelude::*;

verus! {

/// The token stream does not have the shape of a statement. The message says
/// what was expected and what was found instead.
#[derive(Debug, PartialEq, Eq)]
pub struct SyntaxError(pub String);

/// A statement of sound shape breaks a rule of the schema. The message names
/// the rule.
#[derive(Debug, PartialEq, Eq)]
pub struct StatementValidationError(pub String);

impl View for SyntaxError {
    type V = Seq<char>;

    open spec fn view(&self) -> Seq<char> {
        self.0@
    }
}

impl View for StatementValidationError {
    type V = Seq<char>;

    open spec fn view(&self) -> Seq<char> {
        self.0@
    }
}

impl SyntaxError {
    /// The name under which this kind of error is reported to clients.
    pub fn kind(&self) -> (kind: &'static str)
        ensures
            kind@ == "syntax"@,
    {
        "syntax"
    }

    /// What went wrong, for a human reader.
    pub fn message(&self) -> (message: &str)
        ensures
            message@ == self@,
    {
        self.0.as_str()
    }

    /// The error in one line: its kind in words, then the message.
    pub fn to_text(&self) -> (text: String)
        ensures
            text@ == "SyntaxError: "@ + self@,
    {
        let mut text = String::new();
        text.append("SyntaxError: ");
        text.append(self.0.as_str());
        text
    }
}

impl StatementValidationError {
    /// The name under which this kind of error is reported to clients.
    pub fn kind(&self) -> (kind: &'static str)
        ensures
            kind@ == "statement_validation"@,
    {
        "statement_validation"
    }

    /// What went wrong, for a human reader.
    pub fn message(&self) -> (message: &str)
        ensures
            message@ == self@,
    {
        self.0.as_str()
    }

    /// The error in one line: its kind in words, then the message.
    pub fn to_text(&self) -> (text: String)
        ensures
            text@ == "StatementValidationError: "@ + self@,
    {
        let mut text = String::new();
        text.append("StatementValidationError: ");
        text.append(self.0.as_str());
        text
    }
}

} // verus!
