//! The closed error taxonomy of the engine: configuration faults, unknown
//! references, bad operation targets, external-tool failures and I/O faults,
//! each carrying structured fields.
use vstd::prelude::*;
use vstd::string::*;

use crate::strutil::{join_strings, join_seq};

verus! {

/// An error raised by the engine.
#[derive(Debug)]
pub enum EngineError {
    /// The workspace descriptor is missing or malformed.
    Config { message: String },
    /// A name (an `extends` target, a dependency, a requested service) is not
    /// declared; `known` lists every declared component name.
    Reference { missing: String, known: Vec<String> },
    /// The operation targets a template or runs without an active workspace.
    State { message: String },
    /// The external tool exited non-zero; carries its captured stderr.
    ExternalTool { stderr: String },
    /// A filesystem access failed.
    Io { message: String },
}

impl EngineError {
    /// A readable description; a reference error enumerates the known names.
    pub fn message(&self) -> (r: String)
        ensures
            self matches EngineError::Reference { missing, known } ==> r@ == missing@
                + " is not defined. Known components: "@ + join_seq(
                known@.map_values(|s: String| s@),
                ", "@,
            ),
            self matches EngineError::Config { message } ==> r@ == message@,
            self matches EngineError::State { message } ==> r@ == message@,
            self matches EngineError::ExternalTool { stderr } ==> r@ == "external tool failed: "@
                + stderr@,
            self matches EngineError::Io { message } ==> r@ == message@,
    {
        match self {
            EngineError::Config { message } => message.clone(),
            EngineError::Reference { missing, known } => {
                let mut r = missing.clone();
                r.append(" is not defined. Known components: ");
                let names = join_strings(known, ", ");
                r.append(names.as_str());
                r
            },
            EngineError::State { message } => message.clone(),
            EngineError::ExternalTool { stderr } => {
                let mut r = String::from_str("external tool failed: ");
                r.append(stderr.as_str());
                r
            },
            EngineError::Io { message } => message.clone(),
        }
    }
}

/// A failed shell invocation: exit code and captured diagnostic text.
#[derive(Debug)]
pub struct ShellError {
    pub err_code: i32,
    pub trace: String,
}

/// A plain error raised by the command layer.
#[derive(Debug)]
pub struct CliError {
    description: String,
}

impl CliError {
    pub closed spec fn desc(&self) -> Seq<char> {
        self.description@
    }

    pub fn new(description: &str) -> (r: CliError)
        ensures
            r.desc() == description@,
    {
        CliError { description: String::from_str(description) }
    }

    pub fn text(&self) -> (r: &str)
        ensures
            r@ == self.desc(),
    {
        self.description.as_str()
    }
}

} // verus!
