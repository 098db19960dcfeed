//! The error type shared by every command, with its exit code and message.
use vstd::prelude::*;
use crate::textops::{decimal_int, push_decimal_i64, to_owned};

verus! {

/// An error reported to the user.
#[derive(Debug)]
pub enum CliError {
    /// Elvanto answered with an error envelope.
    Api { code: i64, message: String },
    /// The request could not be sent or the answer could not be read.
    Network(String),
    /// The command line or its values are not acceptable.
    Usage(String),
    /// A requested record does not exist.
    NotFound(String),
    /// Local input/output failed.
    Io(String),
}

/// The process exit code for an error: 2 for usage errors, 1 otherwise.
pub open spec fn exit_code_spec(e: CliError) -> u8 {
    match e {
        CliError::Usage(_) => 2,
        _ => 1,
    }
}

/// The human-readable message of an error.
pub open spec fn message_spec(e: CliError) -> Seq<char> {
    match e {
        CliError::Api { code, message } => "Elvanto returned code "@ + decimal_int(code as int)
            + ": "@ + message@,
        CliError::Network(m) => "network: "@ + m@,
        CliError::Usage(m) => m@,
        CliError::NotFound(m) => "not found: "@ + m@,
        CliError::Io(m) => m@,
    }
}

impl CliError {
    /// The exit code the process ends with for this error.
    pub fn exit_code(&self) -> (r: u8)
        ensures
            r == exit_code_spec(*self),
    {
        match self {
            CliError::Api { .. } | CliError::Network(_) | CliError::NotFound(_) | CliError::Io(
                _,
            ) => 1,
            CliError::Usage(_) => 2,
        }
    }

    /// The message shown to the user (`error: <message>`).
    pub fn message(&self) -> (r: String)
        ensures
            r@ == message_spec(*self),
    {
        match self {
            CliError::Api { code, message } => {
                let mut s = to_owned("Elvanto returned code ");
                push_decimal_i64(&mut s, *code);
                s.append(": ");
                s.append(message.as_str());
                s
            },
            CliError::Network(m) => {
                let mut s = to_owned("network: ");
                s.append(m.as_str());
                s
            },
            CliError::Usage(m) => to_owned(m.as_str()),
            CliError::NotFound(m) => {
                let mut s = to_owned("not found: ");
                s.append(m.as_str());
                s
            },
            CliError::Io(m) => to_owned(m.as_str()),
        }
    }
}

} // verus!
