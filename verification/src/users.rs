//! Users and groups on a platform that knows accounts by name and has no
//! groups: a user's id is the string form of its security identifier, and
//! every question about a group has the empty answer.
//!
//! The library does not ask the operating system. Who asks hands the
//! account that a lookup by name found, or `None`, to the functions here.

use vstd::prelude::*;
use vstd::string::*;

verus! {

/// The lowercase form of a string, as Unicode defines it.
pub uninterp spec fn spec_lowercase(s: Seq<char>) -> Seq<char>;

/// The uppercase form of a string, as Unicode defines it.
pub uninterp spec fn spec_uppercase(s: Seq<char>) -> Seq<char>;

/// `str::to_lowercase` of the standard library. Its result depends on the
/// characters of the string alone; the contract gives that result a name
/// and claims nothing else of it.
#[verifier::external_body]
fn lowercase(s: &str) -> (r: String)
    ensures
        r@ == spec_lowercase(s@),
{
    s.to_lowercase()
}

/// `str::to_uppercase` of the standard library. Its result depends on the
/// characters of the string alone; the contract gives that result a name
/// and claims nothing else of it.
#[verifier::external_body]
fn uppercase(s: &str) -> (r: String)
    ensures
        r@ == spec_uppercase(s@),
{
    s.to_uppercase()
}

/// An account as a lookup by name reports it.
#[derive(Debug)]
pub struct Account {
    pub name: String,
    /// The string form of the account's security identifier, where it has
    /// one.
    pub sid: Option<String>,
}

/// Why a package may not run.
#[derive(Debug)]
pub enum UserError {
    /// The user that the package names does not exist; the text says so.
    PermissionFailed(String),
}

/// The id of the user that a lookup by name found: the string form of its
/// security identifier. `None` where the lookup found nothing or the
/// identifier has no string form.
pub open spec fn spec_uid(account: Option<Account>) -> Option<Seq<char>> {
    match account {
        Some(a) => match a.sid {
            Some(s) => Some(s@),
            None => None,
        },
        None => None,
    }
}

/// What [`assert_pkg_user_and_group`] says of a user that does not exist.
pub open spec fn spec_missing_user(user: Seq<char>) -> Seq<char> {
    "Package requires user "@ + user + " to exist, but it doesn't"@
}

/// Whether two optional strings hold the same characters.
pub open spec fn spec_same_text(a: Option<String>, b: Option<Seq<char>>) -> bool {
    match (a, b) {
        (Some(x), Some(y)) => x@ == y,
        (None, None) => true,
        _ => false,
    }
}

/// The id of a user, from what a lookup of its name found.
pub fn get_uid_by_name(account: Option<&Account>) -> (r: Option<String>)
    ensures
        spec_same_text(
            r,
            spec_uid(
                match account {
                    Some(a) => Some(*a),
                    None => None,
                },
            ),
        ),
{
    match account {
        Some(a) => match &a.sid {
            Some(s) => Some(s.clone()),
            None => None,
        },
        None => None,
    }
}

/// The name of the current user, from what the environment says it is: the
/// name in lowercase, and `None` where the environment names no user.
pub fn get_current_username(username: Option<&str>) -> (r: Option<String>)
    ensures
        r is Some <==> username is Some,
        r matches Some(name) ==> name@ == spec_lowercase(username.unwrap()@),
{
    match username {
        Some(name) => Some(lowercase(name)),
        None => None,
    }
}

/// The name of the account that has every right on a computer: the name of
/// the computer in uppercase, followed by a dollar sign.
pub fn root_level_account(computer_name: &str) -> (r: String)
    ensures
        r@ == spec_uppercase(computer_name@) + "$"@,
{
    let mut name = uppercase(computer_name);
    name.append("$");
    name
}

/// The id of a group: there are no groups, so the empty string for every
/// name.
pub fn get_gid_by_name(group: &str) -> (r: Option<String>)
    ensures
        r matches Some(s) && s@.len() == 0,
{
    Some(String::new())
}

/// The name of the current group: there are no groups, so the empty string.
pub fn get_current_groupname() -> (r: Option<String>)
    ensures
        r matches Some(s) && s@.len() == 0,
{
    Some(String::new())
}

/// Checks that the user of a package exists. Groups are not checked: there
/// are none.
pub fn assert_pkg_user_and_group(user: &str, group: &str, account: Option<&Account>) -> (r:
    Result<(), UserError>)
    ensures
        r is Ok <==> spec_uid(
            match account {
                Some(a) => Some(*a),
                None => None,
            },
        ) is Some,
        r matches Err(UserError::PermissionFailed(text)) ==> text@ == spec_missing_user(user@),
{
    match get_uid_by_name(account) {
        Some(_) => Ok(()),
        None => {
            let mut text = String::from_str("Package requires user ");
            text.append(user);
            text.append(" to exist, but it doesn't");
            Err(UserError::PermissionFailed(text))
        },
    }
}

} // verus!
