//! What the launcher decides without starting anything: the code by which
//! it reports a failed start, and how its own log is to look.

use vstd::prelude::*;
use vstd::string::*;

verus! {

/// Why a service process could not be started.
#[derive(Debug)]
pub enum ServiceRunError {
    /// The process could not be spawned; the text says why.
    Spawn(String),
    /// The id of the named user could not be determined.
    GetUid(String),
    /// The id of the named group could not be determined.
    GetGid(String),
    /// The name of the current user could not be determined.
    GetCurrentUsername,
    /// No group of that name exists.
    GroupNotFound(String),
    /// No user of that name exists.
    UserNotFound(String),
}

/// The code by which the launcher reports a failure.
#[derive(Clone, Copy, Debug, PartialEq, Eq, Structural)]
pub enum ErrCode {
    Unknown,
    GroupNotFound,
    UserNotFound,
}

impl ServiceRunError {
    /// The code that stands for the failure: its own code where the user or
    /// the group does not exist, and `Unknown` for every other failure.
    pub open spec fn spec_err_code(self) -> ErrCode {
        match self {
            ServiceRunError::GroupNotFound(_) => ErrCode::GroupNotFound,
            ServiceRunError::UserNotFound(_) => ErrCode::UserNotFound,
            _ => ErrCode::Unknown,
        }
    }

    /// The code that stands for the failure.
    pub fn err_code(&self) -> (r: ErrCode)
        ensures
            r == self.spec_err_code(),
    {
        match self {
            ServiceRunError::GroupNotFound(_) => ErrCode::GroupNotFound,
            ServiceRunError::UserNotFound(_) => ErrCode::UserNotFound,
            _ => ErrCode::Unknown,
        }
    }

    /// What the failure is called in a log.
    pub fn message(&self) -> (r: String)
        ensures
            r@ == match *self {
                ServiceRunError::Spawn(_) => "Failed to spawn service process"@,
                ServiceRunError::GetUid(name) => "Failed to determine UID for user '"@ + name@
                    + "'"@,
                ServiceRunError::GetGid(name) => "Failed to determine GID for group '"@ + name@
                    + "'"@,
                ServiceRunError::GetCurrentUsername => "Failed to determine current username"@,
                ServiceRunError::GroupNotFound(name) => "No GID for group '"@ + name@
                    + "' could be found"@,
                ServiceRunError::UserNotFound(name) => "No UID for user '"@ + name@
                    + "' could be found"@,
            },
    {
        match self {
            ServiceRunError::Spawn(_) => String::from_str("Failed to spawn service process"),
            ServiceRunError::GetUid(name) => {
                let mut text = String::from_str("Failed to determine UID for user '");
                text.append(name.as_str());
                text.append("'");
                text
            },
            ServiceRunError::GetGid(name) => {
                let mut text = String::from_str("Failed to determine GID for group '");
                text.append(name.as_str());
                text.append("'");
                text
            },
            ServiceRunError::GetCurrentUsername => String::from_str(
                "Failed to determine current username",
            ),
            ServiceRunError::GroupNotFound(name) => {
                let mut text = String::from_str("No GID for group '");
                text.append(name.as_str());
                text.append("' could be found");
                text
            },
            ServiceRunError::UserNotFound(name) => {
                let mut text = String::from_str("No UID for user '");
                text.append(name.as_str());
                text.append("' could be found");
                text
            },
        }
    }
}

/// How log lines are written.
#[derive(Clone, Copy, Debug, PartialEq, Eq, Structural)]
pub enum OutputFormat {
    NoColor,
    Json,
}

/// What the launcher takes from the arguments that it passes on to the
/// supervisor, so that its own log looks like the supervisor's.
#[derive(Clone, Copy, Debug, PartialEq, Eq, Structural)]
pub struct LoggingOptions {
    /// The format to switch to, if any.
    pub format: Option<OutputFormat>,
    /// Whether the log is to be verbose.
    pub verbose: bool,
}

/// Whether `args` holds the argument `flag`.
pub open spec fn spec_has_flag(args: Seq<String>, flag: Seq<char>) -> bool {
    exists|i: int| 0 <= i < args.len() && (#[trigger] args[i])@ == flag
}

/// The logging options that `args` asks for: JSON where `--json-logging`
/// is among them, else no colour where `--no-color` is, and verbose where
/// `-v` is.
pub open spec fn spec_logging_options(args: Seq<String>) -> LoggingOptions {
    LoggingOptions {
        format: if spec_has_flag(args, "--json-logging"@) {
            Some(OutputFormat::Json)
        } else if spec_has_flag(args, "--no-color"@) {
            Some(OutputFormat::NoColor)
        } else {
            None
        },
        verbose: spec_has_flag(args, "-v"@),
    }
}

/// Whether two strings hold the same characters.
pub fn same_text(a: &str, b: &str) -> (r: bool)
    ensures
        r == (a@ == b@),
{
    let n = a.unicode_len();
    if n != b.unicode_len() {
        return false;
    }
    let mut i: usize = 0;
    while i < n
        invariant
            i <= n,
            n == a@.len(),
            n == b@.len(),
            forall|j: int| 0 <= j < i ==> a@[j] == b@[j],
        decreases n - i,
    {
        if a.get_char(i) != b.get_char(i) {
            return false;
        }
        i = i + 1;
    }
    assert(a@ =~= b@);
    true
}

/// Whether `args` holds the argument `flag`.
pub fn has_flag(args: &Vec<String>, flag: &str) -> (r: bool)
    ensures
        r == spec_has_flag(args@, flag@),
{
    let mut i: usize = 0;
    while i < args.len()
        invariant
            i <= args.len(),
            forall|j: int| 0 <= j < i ==> (#[trigger] args@[j])@ != flag@,
        decreases args.len() - i,
    {
        if same_text(args[i].as_str(), flag) {
            return true;
        }
        i = i + 1;
    }
    false
}

/// The logging options that the arguments ask for.
pub fn global_logging_options(args: &Vec<String>) -> (r: LoggingOptions)
    ensures
        r == spec_logging_options(args@),
{
    let format = if has_flag(args, "--json-logging") {
        Some(OutputFormat::Json)
    } else if has_flag(args, "--no-color") {
        Some(OutputFormat::NoColor)
    } else {
        None
    };
    LoggingOptions { format, verbose: has_flag(args, "-v") }
}

} // verus!
