//! The error taxonomy of the engine.
//!
//! Compile-time failures are unbalanced delimiters and directive bodies that
//! match no recognized shape; render-time failures are missing context
//! variables, values of the wrong type, and literals that do not parse as
//! the type a directive requires.

use vstd::prelude::*;

use crate::text::push_char;

verus! {

/// An error raised while compiling or rendering a template.
#[derive(Debug, Clone)]
pub enum TemplateError {
    /// The template's delimiters do not balance; carries the delimiter
    /// character that is missing.
    MissingDelimiter(char),
    /// A directive body's token sequence matched no recognized shape.
    DirectiveParsing(String),
    /// A directive failed while rendering, outside the typed cases below.
    DirectiveExecution(String),
    /// A variable that a directive requires is absent from the context.
    NotFound { name: String, kind_name: String },
    /// A variable is present but cannot be read as the required type.
    TypeError { name: String, expected: String, found: String },
    /// An inline literal could not be parsed as the required type.
    ParseError { value: String, kind_name: String, message: String },
}

/// The mathematical shape of a `TemplateError`.
pub enum ErrView {
    MissingDelimiter(char),
    DirectiveParsing(Seq<char>),
    DirectiveExecution(Seq<char>),
    NotFound { name: Seq<char>, kind_name: Seq<char> },
    TypeError { name: Seq<char>, expected: Seq<char>, found: Seq<char> },
    ParseError { value: Seq<char>, kind_name: Seq<char>, message: Seq<char> },
}

impl View for TemplateError {
    type V = ErrView;

    open spec fn view(&self) -> ErrView {
        match self {
            TemplateError::MissingDelimiter(c) => ErrView::MissingDelimiter(*c),
            TemplateError::DirectiveParsing(m) => ErrView::DirectiveParsing(m@),
            TemplateError::DirectiveExecution(m) => ErrView::DirectiveExecution(m@),
            TemplateError::NotFound { name, kind_name } => ErrView::NotFound {
                name: name@,
                kind_name: kind_name@,
            },
            TemplateError::TypeError { name, expected, found } => ErrView::TypeError {
                name: name@,
                expected: expected@,
                found: found@,
            },
            TemplateError::ParseError { value, kind_name, message } => ErrView::ParseError {
                value: value@,
                kind_name: kind_name@,
                message: message@,
            },
        }
    }
}

/// The human-readable description of an error.
pub open spec fn spec_message(e: ErrView) -> Seq<char> {
    match e {
        ErrView::MissingDelimiter(c) => "Unclosed delimiter: missing '"@ + seq![c] + "'"@,
        ErrView::DirectiveParsing(m) => "Error parsing directive: "@ + m,
        ErrView::DirectiveExecution(m) => "Error executing directive: "@ + m,
        ErrView::NotFound { name, kind_name } => "Trying to use value '"@ + name
            + "' which doesn't exist in the context (expected "@ + kind_name + ")"@,
        ErrView::TypeError { name, expected, found } => "Type error for '"@ + name
            + "': expected "@ + expected + ", found "@ + found,
        ErrView::ParseError { value, kind_name, message } => "Could not parse '"@ + value + "' as "@
            + kind_name + ": "@ + message,
    }
}

impl TemplateError {
    /// Describes the error in one line.
    pub fn message(&self) -> (r: String)
        ensures
            r@ == spec_message(self@),
    {
        match self {
            TemplateError::MissingDelimiter(c) => {
                let mut s = String::from_str("Unclosed delimiter: missing '");
                push_char(&mut s, *c);
                s.append("'");
                proof {
                    assert(s@ =~= spec_message(self@));
                }
                s
            },
            TemplateError::DirectiveParsing(m) => {
                let mut s = String::from_str("Error parsing directive: ");
                s.append(m.as_str());
                s
            },
            TemplateError::DirectiveExecution(m) => {
                let mut s = String::from_str("Error executing directive: ");
                s.append(m.as_str());
                s
            },
            TemplateError::NotFound { name, kind_name } => {
                let mut s = String::from_str("Trying to use value '");
                s.append(name.as_str());
                s.append("' which doesn't exist in the context (expected ");
                s.append(kind_name.as_str());
                s.append(")");
                proof {
                    assert(s@ =~= spec_message(self@));
                }
                s
            },
            TemplateError::TypeError { name, expected, found } => {
                let mut s = String::from_str("Type error for '");
                s.append(name.as_str());
                s.append("': expected ");
                s.append(expected.as_str());
                s.append(", found ");
                s.append(found.as_str());
                proof {
                    assert(s@ =~= spec_message(self@));
                }
                s
            },
            TemplateError::ParseError { value, kind_name, message } => {
                let mut s = String::from_str("Could not parse '");
                s.append(value.as_str());
                s.append("' as ");
                s.append(kind_name.as_str());
                s.append(": ");
                s.append(message.as_str());
                proof {
                    assert(s@ =~= spec_message(self@));
                }
                s
            },
        }
    }
}

} // verus!
