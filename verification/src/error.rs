//! The fallible-result error type of the crate: a numeric code, a display
//! text, and an optional cause taken from an outside library.

#![allow(non_snake_case)]

use vstd::prelude::*;
use crate::text::dec_digits;
use crate::text::u64_to_dec_string;

verus! {

#[verifier::external_type_specification]
#[verifier::external_body]
pub struct ExAnyhowError(anyhow::Error);

#[verifier::external_type_specification]
#[verifier::external_body]
pub struct ExParserError(sqlparser::parser::ParserError);

/// The cause attached to an error, when one comes from an outside library.
#[derive(Debug)]
pub enum ErrorCause {
    AnyHow(anyhow::Error),
    Parser(sqlparser::parser::ParserError),
}

/// An error travelling through the pipeline: a code, a display text and an
/// optional outside cause.
#[derive(Debug)]
pub struct ErrorCodes {
    pub code: u16,
    pub display_text: String,
    pub cause: Option<ErrorCause>,
}

/// Code of an error built by `from_anyhow`.
pub const CODE_FROM_ANYHOW: u16 = 1002;

/// Code of a cancelled query; see the probe engine.
pub const CODE_ABORTED_QUERY: u16 = 1043;

/// Code of an internal invariant violation.
pub const CODE_INTERNAL: u16 = 1003;

/// Code of an invalid configuration.
pub const CODE_INVALID_CONFIG: u16 = 1004;

/// Code of an argument that the caller handed in wrong.
pub const CODE_INVALID_ARGUMENT: u16 = 1005;

impl ErrorCodes {
    /// The numeric code of this error.
    pub fn code(&self) -> (r: u16)
        ensures
            r == self.code,
    {
        self.code
    }

    /// The display text of this error.
    pub fn message(&self) -> (r: String)
        ensures
            r@ == self.display_text@,
    {
        self.display_text.clone()
    }

    /// Whether a cause from an outside library is attached.
    pub fn has_cause(&self) -> (r: bool)
        ensures
            r == self.cause.is_some(),
    {
        self.cause.is_some()
    }

    /// The spec-level code of this error.
    pub open spec fn spec_code(&self) -> u16 {
        self.code
    }

    /// The spec-level display text of this error.
    pub open spec fn spec_message(&self) -> Seq<char> {
        self.display_text@
    }

    /// The one-line rendering of an error without a cause:
    /// `Code: <code>, displayText = <text>.`
    pub open spec fn display_spec(&self) -> Seq<char> {
        "Code: "@ + dec_digits(self.code as nat) + ", displayText = "@ + self.display_text@
            + "."@
    }

    /// Renders the error as its display line. When a cause from an outside
    /// library is attached, the cause's own rendering takes the place of the
    /// display text; the frame around it is pinned, the cause's text itself
    /// is the outside library's rendering.
    pub fn display_string(&self) -> (r: String)
        ensures
            self.cause.is_none() ==> r@ == self.display_spec(),
            self.cause.is_some() ==> exists|cause_text: Seq<char>|
                r@ == "Code: "@ + dec_digits(self.code as nat) + ", displayText = "@ + cause_text
                    + "."@,
    {
        proof {
            reveal_strlit("Code: ");
            reveal_strlit(", displayText = ");
            reveal_strlit(".");
        }
        let mut s = "Code: ".to_owned();
        s.append(u64_to_dec_string(self.code as u64).as_str());
        s.append(", displayText = ");
        match &self.cause {
            Option::Some(c) => {
                s.append(cause_text(c).as_str());
            },
            Option::None => {
                s.append(self.display_text.as_str());
            },
        }
        s.append(".");
        s
    }

    pub fn Ok_code(display_text: String) -> (r: ErrorCodes)
        ensures
            r.code == 0,
            r.display_text@ == display_text@,
            r.cause.is_none(),
    {
        ErrorCodes { code: 0, display_text, cause: Option::None }
    }

    pub fn UnknownTypeOfQuery(display_text: String) -> (r: ErrorCodes)
        ensures
            r.code == 1,
            r.display_text@ == display_text@,
            r.cause.is_none(),
    {
        ErrorCodes { code: 1, display_text, cause: Option::None }
    }

    pub fn UnImplement(display_text: String) -> (r: ErrorCodes)
        ensures
            r.code == 2,
            r.display_text@ == display_text@,
            r.cause.is_none(),
    {
        ErrorCodes { code: 2, display_text, cause: Option::None }
    }

    pub fn UnknownDatabase(display_text: String) -> (r: ErrorCodes)
        ensures
            r.code == 3,
            r.display_text@ == display_text@,
            r.cause.is_none(),
    {
        ErrorCodes { code: 3, display_text, cause: Option::None }
    }

    pub fn UnknownSetting(display_text: String) -> (r: ErrorCodes)
        ensures
            r.code == 4,
            r.display_text@ == display_text@,
            r.cause.is_none(),
    {
        ErrorCodes { code: 4, display_text, cause: Option::None }
    }

    pub fn SyntexException(display_text: String) -> (r: ErrorCodes)
        ensures
            r.code == 5,
            r.display_text@ == display_text@,
            r.cause.is_none(),
    {
        ErrorCodes { code: 5, display_text, cause: Option::None }
    }

    pub fn BadArguments(display_text: String) -> (r: ErrorCodes)
        ensures
            r.code == 6,
            r.display_text@ == display_text@,
            r.cause.is_none(),
    {
        ErrorCodes { code: 6, display_text, cause: Option::None }
    }

    pub fn UnknownException(display_text: String) -> (r: ErrorCodes)
        ensures
            r.code == 1000,
            r.display_text@ == display_text@,
            r.cause.is_none(),
    {
        ErrorCodes { code: 1000, display_text, cause: Option::None }
    }

    pub fn TokioError(display_text: String) -> (r: ErrorCodes)
        ensures
            r.code == 1001,
            r.display_text@ == display_text@,
            r.cause.is_none(),
    {
        ErrorCodes { code: 1001, display_text, cause: Option::None }
    }

    /// An internal invariant violation; treated as an unrecoverable bug.
    pub fn Internal(display_text: String) -> (r: ErrorCodes)
        ensures
            r.code == CODE_INTERNAL,
            r.display_text@ == display_text@,
            r.cause.is_none(),
    {
        ErrorCodes { code: CODE_INTERNAL, display_text, cause: Option::None }
    }

    /// The distinguished cancellation error of the probe engine.
    pub fn AbortedQuery(display_text: String) -> (r: ErrorCodes)
        ensures
            r.code == CODE_ABORTED_QUERY,
            r.display_text@ == display_text@,
            r.cause.is_none(),
    {
        ErrorCodes { code: CODE_ABORTED_QUERY, display_text, cause: Option::None }
    }

    /// A configuration or topology error; fatal, never retried.
    pub fn InvalidConfig(display_text: String) -> (r: ErrorCodes)
        ensures
            r.code == CODE_INVALID_CONFIG,
            r.display_text@ == display_text@,
            r.cause.is_none(),
    {
        ErrorCodes { code: CODE_INVALID_CONFIG, display_text, cause: Option::None }
    }

    /// An argument that the caller handed in wrong.
    pub fn InvalidArgument(display_text: String) -> (r: ErrorCodes)
        ensures
            r.code == CODE_INVALID_ARGUMENT,
            r.display_text@ == display_text@,
            r.cause.is_none(),
    {
        ErrorCodes { code: CODE_INVALID_ARGUMENT, display_text, cause: Option::None }
    }

    /// Wraps an error of the `anyhow` library as the cause of a new error.
    pub fn from_anyhow(error: anyhow::Error) -> (r: ErrorCodes)
        ensures
            r.code == CODE_FROM_ANYHOW,
            r.display_text@ == Seq::<char>::empty(),
            r.cause == Option::Some(ErrorCause::AnyHow(error)),
    {
        ErrorCodes {
            code: CODE_FROM_ANYHOW,
            display_text: String::new(),
            cause: Option::Some(ErrorCause::AnyHow(error)),
        }
    }

    /// Wraps a parser error of the `sqlparser` library as the cause of a new
    /// syntax error.
    pub fn from_parser(error: sqlparser::parser::ParserError) -> (r: ErrorCodes)
        ensures
            r.code == 5,
            r.display_text@ == Seq::<char>::empty(),
            r.cause == Option::Some(ErrorCause::Parser(error)),
    {
        ErrorCodes {
            code: 5,
            display_text: String::new(),
            cause: Option::Some(ErrorCause::Parser(error)),
        }
    }
}

/// Relies on the `Display` renderings of `anyhow::Error` and of
/// `sqlparser::parser::ParserError` for the text of an attached cause.
#[verifier::external_body]
fn cause_text(c: &ErrorCause) -> String {
    match c {
        ErrorCause::AnyHow(e) => format!("{}", e),
        ErrorCause::Parser(e) => format!("{}", e),
    }
}

} // verus!
