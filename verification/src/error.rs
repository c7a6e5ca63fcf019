//! The error type of the library.
use vstd::prelude::*;

use crate::text::{chars_of, decimal, decimal_chars, push_all, push_str, string_of};

verus! {

#[verifier::external_type_specification]
#[verifier::external_body]
pub struct ExRusqliteError(rusqlite::Error);

#[verifier::external_type_specification]
#[verifier::external_body]
pub struct ExIoError(std::io::Error);

#[derive(Debug)]
pub enum PikeError {
    CommandFailed { cmd: String, exit_code: i32, stderr: String },
    Parse { source_name: String, detail: String },
    NotFound { name: String, source_name: String },
    Database(rusqlite::Error),
    Config(String),
    Io(std::io::Error),
    Validation(String),
    Other(String),
}

/// A signed integer in decimal, with a minus sign where it is negative.
pub open spec fn signed_decimal(n: int) -> Seq<char> {
    if n < 0 {
        "-"@ + decimal((-n) as nat)
    } else {
        decimal(n as nat)
    }
}

fn signed_decimal_chars(n: i32) -> (r: Vec<char>)
    ensures
        r@ == signed_decimal(n as int),
{
    if n < 0 {
        let m: i64 = -(n as i64);
        let mut v = chars_of("-");
        let d = decimal_chars(m as u64);
        push_all(&mut v, &d);
        v
    } else {
        decimal_chars(n as u64)
    }
}

/// The text of the error that the library states for each kind but the two that
/// carry an error of another library, whose text starts with a fixed prefix.
pub open spec fn error_message_spec(e: PikeError) -> Option<Seq<char>> {
    match e {
        PikeError::CommandFailed { cmd, exit_code, stderr } => Some(
            "command `"@ + cmd@ + "` failed (exit "@ + signed_decimal(exit_code as int) + "): "@
                + stderr@,
        ),
        PikeError::Parse { source_name, detail } => Some(
            "failed to parse "@ + source_name@ + " output: "@ + detail@,
        ),
        PikeError::NotFound { name, source_name } => Some(
            "'"@ + name@ + "' not found in "@ + source_name@,
        ),
        PikeError::Config(m) => Some("config error: "@ + m@),
        PikeError::Validation(m) => Some("invalid input: "@ + m@),
        PikeError::Other(m) => Some(m@),
        _ => None,
    }
}

/// The text of a database error (its `Display` form).
#[verifier::external_body]
fn database_error_text(e: &rusqlite::Error) -> String {
    format!("{e}")
}

/// The text of an I/O error (its `Display` form).
#[verifier::external_body]
fn io_error_text(e: &std::io::Error) -> String {
    format!("{e}")
}

impl PikeError {
    /// The human-readable text of the error.
    pub fn message(&self) -> (r: String)
        ensures
            match error_message_spec(*self) {
                Some(m) => r@ == m,
                None => match *self {
                    PikeError::Database(_) => r@.take(16) == "database error: "@,
                    _ => r@.take(10) == "IO error: "@,
                },
            },
    {
        let mut v: Vec<char> = Vec::new();
        match self {
            PikeError::CommandFailed { cmd, exit_code, stderr } => {
                push_str(&mut v, "command `");
                push_str(&mut v, cmd.as_str());
                push_str(&mut v, "` failed (exit ");
                let d = signed_decimal_chars(*exit_code);
                push_all(&mut v, &d);
                push_str(&mut v, "): ");
                push_str(&mut v, stderr.as_str());
            },
            PikeError::Parse { source_name, detail } => {
                push_str(&mut v, "failed to parse ");
                push_str(&mut v, source_name.as_str());
                push_str(&mut v, " output: ");
                push_str(&mut v, detail.as_str());
            },
            PikeError::NotFound { name, source_name } => {
                push_str(&mut v, "'");
                push_str(&mut v, name.as_str());
                push_str(&mut v, "' not found in ");
                push_str(&mut v, source_name.as_str());
            },
            PikeError::Database(e) => {
                push_str(&mut v, "database error: ");
                let t = database_error_text(e);
                proof {
                    reveal_strlit("database error: ");
                    assert(v@.len() == 16);
                }
                let ghost before = v@;
                push_str(&mut v, t.as_str());
                proof {
                    assert(v@.take(16) =~= before);
                }
            },
            PikeError::Config(m) => {
                push_str(&mut v, "config error: ");
                push_str(&mut v, m.as_str());
            },
            PikeError::Io(e) => {
                push_str(&mut v, "IO error: ");
                let t = io_error_text(e);
                proof {
                    reveal_strlit("IO error: ");
                    assert(v@.len() == 10);
                }
                let ghost before = v@;
                push_str(&mut v, t.as_str());
                proof {
                    assert(v@.take(10) =~= before);
                }
            },
            PikeError::Validation(m) => {
                push_str(&mut v, "invalid input: ");
                push_str(&mut v, m.as_str());
            },
            PikeError::Other(m) => {
                push_str(&mut v, m.as_str());
            },
        }
        string_of(&v)
    }
}

} // verus!
