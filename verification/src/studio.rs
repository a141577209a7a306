//! What entering a studio decides before anything is started: which kind
//! of studio the arguments ask for, and whether the command must run again
//! with more rights.

use vstd::prelude::*;
use crate::launcher::{has_flag, spec_has_flag};

verus! {

/// Whether the arguments ask for a studio in a container: on Linux, where
/// `-D` is among them; elsewhere never.
pub fn is_docker_studio(args: &Vec<String>, on_linux: bool) -> (r: bool)
    ensures
        r == (on_linux && spec_has_flag(args@, "-D"@)),
{
    if !on_linux {
        return false;
    }
    has_flag(args, "-D")
}

/// Whether the arguments ask for a native studio on Windows: on Windows,
/// where `-D` is not among them; elsewhere never.
pub fn is_windows_studio(args: &Vec<String>, on_windows: bool) -> (r: bool)
    ensures
        r == (on_windows && !spec_has_flag(args@, "-D"@)),
{
    if !on_windows {
        return false;
    }
    !has_flag(args, "-D")
}

/// Whether the current user is a member of the group that may talk to the
/// container daemon. `members` is `None` where there is no such group.
pub fn has_docker_group(current_user: &str, members: Option<&Vec<String>>) -> (r: bool)
    ensures
        r == match members {
            Some(m) => spec_has_flag(m@, current_user@),
            None => false,
        },
{
    match members {
        Some(m) => has_flag(m, current_user),
        None => false,
    }
}

/// What is to be done about the rights of the command.
#[derive(Clone, Copy, Debug, PartialEq, Eq, Structural)]
pub enum Privilege {
    /// The command has the rights it needs.
    Enough,
    /// The command is to be run again by way of `sudo`.
    Rerun,
    /// The command needs more rights and there is no `sudo` to get them.
    RootRequired,
}

/// Whether the command has the rights it needs: as root always, and for a
/// studio in a container also as a member of the daemon's group.
pub open spec fn spec_privilege(
    am_root: bool,
    docker_studio: bool,
    docker_group: bool,
    sudo_found: bool,
) -> Privilege {
    if am_root || (docker_studio && docker_group) {
        Privilege::Enough
    } else if sudo_found {
        Privilege::Rerun
    } else {
        Privilege::RootRequired
    }
}

/// Decides what is to be done about the rights of the command.
pub fn rerun_with_sudo_if_needed(
    am_root: bool,
    docker_studio: bool,
    docker_group: bool,
    sudo_found: bool,
) -> (r: Privilege)
    ensures
        r == spec_privilege(am_root, docker_studio, docker_group, sudo_found),
{
    if am_root || (docker_studio && docker_group) {
        Privilege::Enough
    } else if sudo_found {
        Privilege::Rerun
    } else {
        Privilege::RootRequired
    }
}

/// The value to give a variable of the environment from the configuration:
/// the configured value where the variable is not set and the
/// configuration has one, and none otherwise.
pub fn set_env_var_from_config(is_set: bool, config_val: Option<String>) -> (r: Option<String>)
    ensures
        r == if is_set {
            None
        } else {
            config_val
        },
{
    if is_set {
        None
    } else {
        config_val
    }
}

} // verus!
