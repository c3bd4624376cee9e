//! CLI error type.

use crate::asn1::error::{error_text, Error as CoreError};
use crate::asn1::util::push_str;
use vstd::prelude::*;
use vstd::std_specs::convert::FromSpecImpl;

verus! {

#[verifier::external_type_specification]
#[verifier::external_body]
pub struct ExIoError(std::io::Error);

/// Errors surfaced by the CLI.
#[derive(Debug)]
pub enum CliError {
    /// I/O failure (reading files, spawning subprocesses, etc.).
    Io(std::io::Error),
    /// A DER/BER/CER parsing failure from the codec.
    Core(CoreError),
    /// PEM framing or base64 decoding failure.
    Pem(String),
    /// A general, user-facing error message.
    Msg(String),
}

#[verifier::external_body]
/// `format!` on an I/O error: its `Display` text, which the operating system
/// supplies.
fn io_error_text(e: &std::io::Error) -> String {
    format!("{e}")
}

impl CliError {
    /// Build a [`CliError::Msg`] from a message.
    pub fn msg(text: &str) -> (e: Self)
        ensures
            e matches CliError::Msg(m) && m@ == text@,
    {
        CliError::Msg(String::from_str(text))
    }

    /// The user-facing rendering: the kind of failure and its description.
    pub fn to_string(&self) -> (s: String)
        ensures
            match self {
                CliError::Io(_) => s@.len() >= 11 && s@.subrange(0, 11) == "i/o error: "@,
                CliError::Core(e) => s@ == "parse error: "@ + error_text(*e),
                CliError::Pem(m) => s@ == "pem error: "@ + m@,
                CliError::Msg(m) => s@ == m@,
            },
    {
        match self {
            CliError::Io(e) => {
                proof {
                    reveal_strlit("i/o error: ");
                }
                let mut s = String::from_str("i/o error: ");
                let t = io_error_text(e);
                let ghost head = s@;
                push_str(&mut s, t.as_str());
                proof {
                    assert(s@.subrange(0, 11) =~= head);
                }
                s
            },
            CliError::Core(e) => {
                let mut s = String::from_str("parse error: ");
                let t = e.to_string();
                push_str(&mut s, t.as_str());
                s
            },
            CliError::Pem(m) => {
                let mut s = String::from_str("pem error: ");
                push_str(&mut s, m.as_str());
                s
            },
            CliError::Msg(m) => String::from_str(m.as_str()),
        }
    }
}

impl From<std::io::Error> for CliError {
    fn from(e: std::io::Error) -> (r: Self) {
        CliError::Io(e)
    }
}

impl FromSpecImpl<std::io::Error> for CliError {
    open spec fn obeys_from_spec() -> bool {
        true
    }

    open spec fn from_spec(e: std::io::Error) -> Self {
        CliError::Io(e)
    }
}

impl From<CoreError> for CliError {
    fn from(e: CoreError) -> (r: Self) {
        CliError::Core(e)
    }
}

impl FromSpecImpl<CoreError> for CliError {
    open spec fn obeys_from_spec() -> bool {
        true
    }

    open spec fn from_spec(e: CoreError) -> Self {
        CliError::Core(e)
    }
}

} // verus!
