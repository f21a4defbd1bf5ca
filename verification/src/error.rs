//! The error taxonomy shared by every component.

use vstd::prelude::*;

verus! {

/// Everything that can go wrong while reading, rewriting or restoring a
/// tool's configuration.  Each variant carries a human-readable detail
/// string; the variant itself is the machine-readable kind.
#[derive(Debug)]
pub enum MirrorError {
    /// A filesystem read, write, copy or directory creation failed.
    Io(String),
    /// A JSON document could not be parsed.
    Json(String),
    /// An in-memory configuration tree could not be serialized.
    TomlSer(String),
    /// A TOML document could not be parsed.
    TomlDe(String),
    /// The system clock could not be read.
    SystemTime(String),
    /// The requested tool identifier is not supported.
    UnknownTool(String),
    /// Any other failure, described by its message alone.
    Custom(String),
}

impl MirrorError {

    /// The user-facing text of this error: a fixed phrase naming the kind,
    /// followed by the detail string.
    pub open spec fn spec_message(self) -> Seq<char> {
        match self {
            MirrorError::Io(s) => "IO operation failed: "@ + s@,
            MirrorError::Json(s) => "JSON parsing error: "@ + s@,
            MirrorError::TomlSer(s) => "TOML serialization error: "@ + s@,
            MirrorError::TomlDe(s) => "TOML deserialization error: "@ + s@,
            MirrorError::SystemTime(s) => "System time error: "@ + s@,
            MirrorError::UnknownTool(s) => "Unknown tool: "@ + s@,
            MirrorError::Custom(s) => s@,
        }
    }

    pub fn message(&self) -> (r: String)
        ensures
            r@ == self.spec_message(),
    {
        match self {
            MirrorError::Io(s) => {
                let mut m = String::from_str("IO operation failed: ");
                m.append(s.as_str());
                m
            },
            MirrorError::Json(s) => {
                let mut m = String::from_str("JSON parsing error: ");
                m.append(s.as_str());
                m
            },
            MirrorError::TomlSer(s) => {
                let mut m = String::from_str("TOML serialization error: ");
                m.append(s.as_str());
                m
            },
            MirrorError::TomlDe(s) => {
                let mut m = String::from_str("TOML deserialization error: ");
                m.append(s.as_str());
                m
            },
            MirrorError::SystemTime(s) => {
                let mut m = String::from_str("System time error: ");
                m.append(s.as_str());
                m
            },
            MirrorError::UnknownTool(s) => {
                let mut m = String::from_str("Unknown tool: ");
                m.append(s.as_str());
                m
            },
            MirrorError::Custom(s) => s.clone(),
        }
    }
}

} // verus!
