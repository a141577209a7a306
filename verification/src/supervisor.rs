//! What a supervisor keeps of one service process: whether it is up, under
//! which process id, and since when.
//!
//! The supervisor here starts no process and reads no file. Its caller
//! finds out what the pid file or the launcher says and whether a process
//! is alive, and the functions below decide what follows.

use vstd::prelude::*;
use vstd::string::*;
use crate::decimal::{parse_decimal, spec_parse};

verus! {

/// A process id.
pub type Pid = u32;

/// Whether a service process runs.
#[derive(Clone, Copy, Debug, PartialEq, Eq, Structural)]
pub enum ProcessState {
    Down,
    Up,
}

/// Where the process id of a service comes from.
#[derive(Clone, Copy, Debug, PartialEq, Eq, Structural)]
pub enum ServicePidSource {
    /// The launcher is asked.
    Launcher,
    /// The pid file is read.
    Files,
}

/// Where the process id of a service is to be had.
#[derive(Clone, Copy, Debug, PartialEq, Eq, Structural)]
pub enum PidLookup {
    /// It is known: nothing is to be asked.
    Known(Pid),
    /// The pid file is to be read.
    File,
    /// The launcher is to be asked.
    Launcher,
}

/// What is to be done to stop a service.
#[derive(Clone, Copy, Debug, PartialEq, Eq, Structural)]
pub enum StopAction {
    /// Nothing: no process id is known.
    NoPid,
    /// Nothing: the process id is 0, which is no service's.
    PidZero,
    /// The process is to be terminated and its pid file removed.
    Terminate(Pid),
}

/// The process id that the first line of a pid file names. `None` where the
/// line is no number that fits a process id, and where it is 0: a process
/// id of 0 would mean that the supervisor supervises itself, so such a file
/// counts as corrupt.
pub open spec fn spec_read_pid(line: Seq<char>) -> Option<Pid> {
    match spec_parse(line, u32::MAX as u64) {
        Some(pid) => if pid == 0 {
            None
        } else {
            Some(pid as Pid)
        },
        None => None,
    }
}

/// Reads the process id that the first line of a pid file names.
pub fn read_pid(line: &str) -> (r: Option<Pid>)
    ensures
        r == spec_read_pid(line@),
{
    match parse_decimal(line, u32::MAX as u64) {
        Some(pid) => {
            if pid == 0 {
                None
            } else {
                Some(pid as u32)
            }
        },
        None => None,
    }
}

/// Whether a hook is to be run once more: always where it left no exit
/// value, and otherwise where the hook says so of its exit value.
pub fn hook_should_retry(exit: Option<bool>) -> (r: bool)
    ensures
        r == match exit {
            None => true,
            Some(again) => again,
        },
{
    match exit {
        None => true,
        Some(again) => again,
    }
}

/// The state of one supervised service.
#[derive(Clone, Copy, Debug, PartialEq, Eq, Structural)]
pub struct Supervisor {
    pub state: ProcessState,
    pub pid: Option<Pid>,
    /// When the state was entered, in seconds since the epoch.
    pub state_entered: u64,
    pub pid_source: ServicePidSource,
}

impl Supervisor {
    /// The supervisor after a change to `state` at `now`: a state that is
    /// entered anew is entered at `now`; the state that holds already keeps
    /// its time.
    pub open spec fn spec_change_state(self, state: ProcessState, now: u64) -> Supervisor {
        if self.state == state {
            self
        } else {
            Supervisor { state, state_entered: now, ..self }
        }
    }

    /// The process id to look at: the one that is known, or else the one
    /// that the source names.
    pub open spec fn spec_candidate(self, found: Option<Pid>) -> Option<Pid> {
        match self.pid {
            Some(pid) => Some(pid),
            None => found,
        }
    }

    /// The supervisor after the process of `candidate` was looked at.
    pub open spec fn spec_check_process(self, candidate: Option<Pid>, alive: bool, now: u64) -> Supervisor {
        if candidate is Some && alive {
            (Supervisor { pid: candidate, ..self }).spec_change_state(ProcessState::Up, now)
        } else {
            (Supervisor { pid: None, ..self }).spec_change_state(ProcessState::Down, now)
        }
    }

    /// A supervisor of a service that is down, at `now`.
    pub fn new(pid_source: ServicePidSource, now: u64) -> (r: Supervisor)
        ensures
            r == (Supervisor { state: ProcessState::Down, pid: None, state_entered: now, pid_source }),
    {
        Supervisor { state: ProcessState::Down, pid: None, state_entered: now, pid_source }
    }

    /// Enters `state` at `now`, unless it holds already.
    fn change_state(&mut self, state: ProcessState, now: u64)
        ensures
            *final(self) == old(self).spec_change_state(state, now),
    {
        if self.state == state {
            return ;
        }
        self.state = state;
        self.state_entered = now;
    }

    /// Where the process id is to be had: a process id that is known is
    /// kept; where none is known, the pid file is read if files are the
    /// source, and the launcher is asked otherwise.
    pub fn pid_lookup(&self) -> (r: PidLookup)
        ensures
            r == match self.pid {
                Some(p) => PidLookup::Known(p),
                None => if self.pid_source == ServicePidSource::Files {
                    PidLookup::File
                } else {
                    PidLookup::Launcher
                },
            },
    {
        match self.pid {
            Some(p) => PidLookup::Known(p),
            None => {
                if self.pid_source == ServicePidSource::Files {
                    PidLookup::File
                } else {
                    PidLookup::Launcher
                }
            },
        }
    }

    /// The process id to look at, where `found` is what the pid source says.
    pub fn candidate(&self, found: Option<Pid>) -> (r: Option<Pid>)
        ensures
            r == self.spec_candidate(found),
    {
        match self.pid {
            Some(pid) => Some(pid),
            None => found,
        }
    }

    /// Takes note of whether the process of `candidate` is alive. Says
    /// whether the service is up; where it is not, the pid file is to be
    /// removed.
    pub fn check_process(&mut self, candidate: Option<Pid>, alive: bool, now: u64) -> (r: bool)
        ensures
            *final(self) == old(self).spec_check_process(candidate, alive, now),
            r == (candidate is Some && alive),
            r == (final(self).state == ProcessState::Up),
            r == final(self).pid is Some,
    {
        if candidate.is_some() && alive {
            self.pid = candidate;
            self.change_state(ProcessState::Up, now);
            true
        } else {
            self.pid = None;
            self.change_state(ProcessState::Down, now);
            false
        }
    }

    /// Takes note that the launcher has spawned the service as `pid`. The
    /// state stays as it is until the pid file is written.
    pub fn spawned(&mut self, pid: Pid)
        ensures
            *final(self) == (Supervisor { pid: Some(pid), ..*old(self) }),
    {
        self.pid = Some(pid);
    }

    /// Takes note, at `now`, that the pid file of the spawned service is
    /// written: the service is up.
    pub fn running(&mut self, now: u64)
        ensures
            *final(self) == old(self).spec_change_state(ProcessState::Up, now),
    {
        self.change_state(ProcessState::Up, now);
    }

    /// The two steps of a start in a row, for a caller whose pid file
    /// cannot fail: the service is spawned as `pid` and is up at `now`.
    pub fn start(&mut self, pid: Pid, now: u64)
        ensures
            *final(self) == (Supervisor { pid: Some(pid), ..*old(self) }).spec_change_state(
                ProcessState::Up,
                now,
            ),
    {
        self.spawned(pid);
        self.running(now);
    }

    /// Is the process up or down?
    pub fn status(&self) -> (r: ProcessState)
        ensures
            r == self.state,
    {
        self.state
    }

    /// What is to be done to stop the service.
    pub fn stop(&self) -> (r: StopAction)
        ensures
            r == match self.pid {
                None => StopAction::NoPid,
                Some(pid) => if pid == 0 {
                    StopAction::PidZero
                } else {
                    StopAction::Terminate(pid)
                },
            },
    {
        match self.pid {
            None => StopAction::NoPid,
            Some(pid) => {
                if pid == 0 {
                    StopAction::PidZero
                } else {
                    StopAction::Terminate(pid)
                }
            },
        }
    }

    /// When the state was entered.
    pub fn state_entered(&self) -> (r: u64)
        ensures
            r == self.state_entered,
    {
        self.state_entered
    }
}

/// The state is entered when it changes, and only then.
pub proof fn lemma_state_keeps_its_time(s: Supervisor, state: ProcessState, first: u64, second: u64)
    ensures
        s.spec_change_state(state, first).spec_change_state(state, second) == s.spec_change_state(
            state,
            first,
        ),
        s.spec_change_state(state, first).state == state,
{
}

/// How long a process is given to end after it was asked to, in seconds.
#[derive(Clone, Copy, Debug, PartialEq, Eq, Structural)]
pub struct ShutdownTimeout(pub u32);

/// How a service process is to be shut down cleanly.
#[derive(Clone, Copy, Debug, PartialEq, Eq, Structural)]
pub struct ShutdownInput {
    /// How long to wait before the process is ended by force; `None` for
    /// the wait that is configured.
    pub timeout: Option<ShutdownTimeout>,
}

impl ShutdownInput {
    /// What a request to stop or to unload a service asks for.
    pub fn from_timeout_in_seconds(timeout_in_seconds: Option<u32>) -> (r: ShutdownInput)
        ensures
            r.timeout == match timeout_in_seconds {
                Some(s) => Some(ShutdownTimeout(s)),
                None => None,
            },
    {
        ShutdownInput {
            timeout: match timeout_in_seconds {
                Some(s) => Some(ShutdownTimeout(s)),
                None => None,
            },
        }
    }
}

/// What an operator asks the supervisor to do with a service, named by its
/// service group.
#[derive(Debug)]
pub enum SupervisorAction {
    StopService { service_spec: String, shutdown_input: ShutdownInput },
    UnloadService { service_spec: String, shutdown_input: ShutdownInput },
    UpdateService { service_spec: String },
}

/// The account under which a service runs.
#[derive(Debug)]
pub struct UserInfo {
    pub username: Option<String>,
    pub uid: Option<u32>,
    pub groupname: Option<String>,
    pub gid: Option<u32>,
}

/// Why a service cannot be started.
#[derive(Debug)]
pub enum SupError {
    UserNotFound(String),
    GroupNotFound(String),
}

/// Who the supervisor itself runs as.
#[derive(Debug)]
pub struct Effective {
    pub username: Option<String>,
    pub uid: u32,
    pub groupname: Option<String>,
    pub gid: u32,
}

/// Whether two optional strings hold the same characters.
pub open spec fn spec_same_name(a: Option<String>, b: Option<String>) -> bool {
    match (a, b) {
        (Some(x), Some(y)) => x@ == y@,
        (None, None) => true,
        _ => false,
    }
}

/// The account under which a service of a package runs.
///
/// A supervisor that can run services as another user runs the service as
/// the user and group that the package names; both must exist. One that
/// cannot runs it as itself.
pub fn user_info(
    svc_user: &str,
    svc_group: &str,
    can_run_as_svc_user: bool,
    uid: Option<u32>,
    gid: Option<u32>,
    me: Effective,
) -> (r: Result<UserInfo, SupError>)
    ensures
        can_run_as_svc_user && uid is None ==> (r matches Err(SupError::UserNotFound(name))
            && name@ == svc_user@),
        can_run_as_svc_user && uid is Some && gid is None ==> (r matches Err(
            SupError::GroupNotFound(name),
        ) && name@ == svc_group@),
        can_run_as_svc_user && uid is Some && gid is Some ==> (r matches Ok(info) && info.uid
            == uid && info.gid == gid && (info.username matches Some(u) && u@ == svc_user@) && (
        info.groupname matches Some(g) && g@ == svc_group@)),
        !can_run_as_svc_user ==> (r matches Ok(info) && info.uid == Some(me.uid) && info.gid
            == Some(me.gid) && spec_same_name(info.username, me.username) && spec_same_name(
            info.groupname,
            me.groupname,
        )),
{
    if can_run_as_svc_user {
        let uid = match uid {
            Some(uid) => uid,
            None => {
                return Err(SupError::UserNotFound(String::from_str(svc_user)));
            },
        };
        let gid = match gid {
            Some(gid) => gid,
            None => {
                return Err(SupError::GroupNotFound(String::from_str(svc_group)));
            },
        };
        Ok(
            UserInfo {
                username: Some(String::from_str(svc_user)),
                uid: Some(uid),
                groupname: Some(String::from_str(svc_group)),
                gid: Some(gid),
            },
        )
    } else {
        Ok(
            UserInfo {
                username: me.username,
                uid: Some(me.uid),
                groupname: me.groupname,
                gid: Some(me.gid),
            },
        )
    }
}

} // verus!
