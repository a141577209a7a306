//! What the operator's commands for ring keys and for removing packages
//! take, as plain values.

use vstd::prelude::*;
use vstd::string::*;
use crate::decimal::{parse_decimal, spec_parse};

verus! {

/// The token that authenticates the operator to a package depot.
#[derive(Debug)]
pub struct AuthToken {
    pub auth_token: Option<String>,
}

/// Where encryption keys are cached.
#[derive(Debug)]
pub struct CacheKeyPath {
    pub cache_key_path: String,
}

impl CacheKeyPath {
    /// The value that the argument takes where the operator gives none: the
    /// path at hand.
    pub fn arg_default(&self) -> (r: Option<String>)
        ensures
            r matches Some(p) && p@ == self.cache_key_path@,
    {
        Some(self.cache_key_path.clone())
    }
}

/// Commands on the keys of a ring.
#[derive(Debug)]
pub enum Key {
    /// Writes the newest key of a ring to the standard output.
    Export { ring: String, cache_key_path: CacheKeyPath },
    /// Makes a new key for a ring.
    Generate { ring: String, cache_key_path: CacheKeyPath },
    /// Reads a key from the standard input and keeps it.
    Import { cache_key_path: CacheKeyPath },
}

/// Commands on rings.
#[derive(Debug)]
pub enum Ring {
    Key(Key),
}

/// How much of a package is removed.
#[derive(Clone, Copy, Debug, PartialEq, Eq, Structural)]
pub enum UninstallMode {
    /// The release that was named.
    Single,
    /// Every release but the newest ones, as many as the number says.
    KeepLatest(usize),
}

/// Why a depot refused to delete a package.
#[derive(Clone, Copy, Debug, PartialEq, Eq, Structural)]
pub enum DeleteFailure {
    /// The depot does not know the package, or not for this platform.
    NotFound,
    /// The package is in the stable channel or other packages depend on it.
    InUse,
    /// Anything else.
    Other,
}

/// The failure that the status of a depot's answer stands for: 404 for a
/// package that is not there, 422 for one that is in use. `None` is a
/// failure that came without a status.
pub open spec fn spec_delete_failure(status: Option<u16>) -> DeleteFailure {
    match status {
        Some(code) => if code == 404 {
            DeleteFailure::NotFound
        } else if code == 422 {
            DeleteFailure::InUse
        } else {
            DeleteFailure::Other
        },
        None => DeleteFailure::Other,
    }
}

/// What the operator is told of a package that could not be deleted, line
/// by line. `cause` is what the depot's client says of a failure that has
/// no advice of its own.
pub open spec fn spec_delete_advice(
    failure: DeleteFailure,
    ident: Seq<char>,
    target: Seq<char>,
    cause: Seq<char>,
) -> Seq<Seq<char>> {
    match failure {
        DeleteFailure::NotFound => seq![
            "This package does not exist, or alternatively, you may need to specify a valid platform\ntarget argument other than "@
                + target + "."@,
        ],
        DeleteFailure::InUse => seq![
            "Before you can delete this package artifact, demote it from the `stable` channel\nand remove any reverse dependencies."@,
            "Demote the package artifact with the command:\nbio pkg demote "@ + ident
                + " stable "@ + target,
            "Discover any reverse dependencies with the command:\nbio pkg dependencies --reverse "@
                + ident,
        ],
        DeleteFailure::Other => seq!["Failed to delete the package! "@ + cause + "."@],
    }
}

/// The views of a vector of strings.
pub open spec fn spec_texts(v: Seq<String>) -> Seq<Seq<char>> {
    Seq::new(v.len(), |i: int| v[i]@)
}

/// The failure that the status of a depot's answer stands for.
pub fn delete_failure(status: Option<u16>) -> (r: DeleteFailure)
    ensures
        r == spec_delete_failure(status),
{
    match status {
        Some(code) => {
            if code == 404 {
                DeleteFailure::NotFound
            } else if code == 422 {
                DeleteFailure::InUse
            } else {
                DeleteFailure::Other
            }
        },
        None => DeleteFailure::Other,
    }
}

/// What the operator is told of a package that could not be deleted.
pub fn delete_advice(failure: DeleteFailure, ident: &str, target: &str, cause: &str) -> (r: Vec<
    String,
>)
    ensures
        spec_texts(r@) == spec_delete_advice(failure, ident@, target@, cause@),
{
    let mut out: Vec<String> = Vec::new();
    match failure {
        DeleteFailure::NotFound => {
            let mut line = String::from_str(
                "This package does not exist, or alternatively, you may need to specify a valid platform\ntarget argument other than ",
            );
            line.append(target);
            line.append(".");
            out.push(line);
        },
        DeleteFailure::InUse => {
            out.push(
                String::from_str(
                    "Before you can delete this package artifact, demote it from the `stable` channel\nand remove any reverse dependencies.",
                ),
            );
            let mut demote = String::from_str(
                "Demote the package artifact with the command:\nbio pkg demote ",
            );
            demote.append(ident);
            demote.append(" stable ");
            demote.append(target);
            out.push(demote);
            let mut discover = String::from_str(
                "Discover any reverse dependencies with the command:\nbio pkg dependencies --reverse ",
            );
            discover.append(ident);
            out.push(discover);
        },
        DeleteFailure::Other => {
            let mut line = String::from_str("Failed to delete the package! ");
            line.append(cause);
            line.append(".");
            out.push(line);
        },
    }
    assert(spec_texts(out@) =~= spec_delete_advice(failure, ident@, target@, cause@));
    out
}

impl UninstallMode {
    /// The mode that the argument `KEEP_LATEST` asks for: to keep as many
    /// of the newest releases as it says where it is a number, and to
    /// remove the one release where it is absent or no number.
    pub open spec fn spec_from(keep_latest: Option<Seq<char>>) -> UninstallMode {
        match keep_latest {
            Some(s) => match spec_parse(s, usize::MAX as u64) {
                Some(n) => UninstallMode::KeepLatest(n as usize),
                None => UninstallMode::Single,
            },
            None => UninstallMode::Single,
        }
    }

    /// The mode that the argument `KEEP_LATEST` asks for.
    pub fn from(keep_latest: Option<&str>) -> (r: UninstallMode)
        ensures
            r == UninstallMode::spec_from(
                match keep_latest {
                    Some(s) => Some(s@),
                    None => None,
                },
            ),
    {
        match keep_latest {
            Some(s) => match parse_decimal(s, usize::MAX as u64) {
                Some(n) => UninstallMode::KeepLatest(n as usize),
                None => UninstallMode::Single,
            },
            None => UninstallMode::Single,
        }
    }
}

} // verus!
