//! The command line: the commands and their options, as plain values.
use vstd::prelude::*;

verus! {

/// The command line of the program.
pub struct Cli {
    /// Custom path to the codex file.
    pub path: Option<String>,
    pub command: Commands,
}

/// How `ls` prints the OTPs.
#[derive(Clone, Copy, Debug, PartialEq, Eq)]
pub enum OutputFormat {
    Table,
    Json,
}

impl Default for OutputFormat {
    fn default() -> (f: Self)
        ensures
            f == OutputFormat::Table,
    {
        OutputFormat::Table
    }
}

/// The options on how secrets are stored and unlocked.
pub struct EncryptArgs {
    /// Store the secret in plain text.
    pub unencrypt: bool,
    /// The password, given on the command line.
    pub password: Option<String>,
}

/// The commands of the program.
pub enum Commands {
    /// Adds a code, by alias and code, from an `otpauth://` URI, or from a
    /// file of such URIs.
    Add {
        alias: Option<String>,
        code: Option<String>,
        otpauth: Option<String>,
        import: Option<String>,
        encryption: EncryptArgs,
    },
    /// Removes the code of an alias.
    Remove { alias: String },
    /// Replaces the code of an alias.
    Update { alias: String, code: String, encryption: EncryptArgs },
    /// Renames an alias.
    Rename { old_alias: String, new_alias: String },
    /// Shows the OTPs of all records, or of those that match an alias.
    Ls {
        alias: Option<String>,
        quiet: bool,
        exact: bool,
        format: OutputFormat,
        encryption: EncryptArgs,
    },
    /// Shows where the codex file is.
    Config {},
}

} // verus!
