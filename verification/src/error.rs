//! Errors.
use vstd::prelude::*;

use crate::text;

verus! {

/// Why something could not be done; each variant holds the text of its cause.
#[derive(Debug)]
pub enum BarzelError {
    Detection(String),
    Config(String),
    Io(String),
    Serde(String),
    TomlSer(String),
    TomlDe(String),
    UnknownCommand(String),
}

impl BarzelError {
    pub open spec fn text(self) -> Seq<char> {
        match self {
            BarzelError::Detection(s) => "project detection failed: "@ + s@,
            BarzelError::Config(s) => "configuration error: "@ + s@,
            BarzelError::Io(s) => "I/O error: "@ + s@,
            BarzelError::Serde(s) => "serialization error: "@ + s@,
            BarzelError::TomlSer(s) => "TOML error: "@ + s@,
            BarzelError::TomlDe(s) => "TOML parse error: "@ + s@,
            BarzelError::UnknownCommand(s) => "unknown command: "@ + s@,
        }
    }

    /// The message of an error.
    pub fn message(&self) -> (r: String)
        ensures
            r@ == self.text(),
    {
        match self {
            BarzelError::Detection(s) => text::cat("project detection failed: ", s.as_str()),
            BarzelError::Config(s) => text::cat("configuration error: ", s.as_str()),
            BarzelError::Io(s) => text::cat("I/O error: ", s.as_str()),
            BarzelError::Serde(s) => text::cat("serialization error: ", s.as_str()),
            BarzelError::TomlSer(s) => text::cat("TOML error: ", s.as_str()),
            BarzelError::TomlDe(s) => text::cat("TOML parse error: ", s.as_str()),
            BarzelError::UnknownCommand(s) => text::cat("unknown command: ", s.as_str()),
        }
    }
}

/// What an error is told as.
pub proof fn law_errors_tell_their_kind(s: String)
    ensures
        BarzelError::Detection(s).text() == "project detection failed: "@ + s@,
        BarzelError::Config(s).text() == "configuration error: "@ + s@,
        BarzelError::Io(s).text() == "I/O error: "@ + s@,
        BarzelError::Serde(s).text() == "serialization error: "@ + s@,
        BarzelError::TomlSer(s).text() == "TOML error: "@ + s@,
        BarzelError::TomlDe(s).text() == "TOML parse error: "@ + s@,
        BarzelError::UnknownCommand(s).text() == "unknown command: "@ + s@,
{
}

} // verus!
