use butterfly::cli::{
    delete_advice, delete_failure, AuthToken, CacheKeyPath, DeleteFailure, Key, Ring, UninstallMode,
};
use butterfly::decimal::parse_decimal;
use butterfly::launcher::{
    global_logging_options, has_flag, same_text, ErrCode, LoggingOptions, OutputFormat,
    ServiceRunError,
};
use butterfly::studio::{
    has_docker_group, is_docker_studio, is_windows_studio, rerun_with_sudo_if_needed,
    set_env_var_from_config, Privilege,
};
use butterfly::supervisor::{
    hook_should_retry, read_pid, user_info, Effective, PidLookup, ProcessState, ServicePidSource,
    ShutdownInput, ShutdownTimeout, StopAction, SupError, Supervisor, SupervisorAction,
};
use butterfly::updater::{ServiceUpdater, UpdateStrategy, WorkerKind};
use butterfly::users::{
    assert_pkg_user_and_group, get_current_groupname, get_current_username, get_gid_by_name,
    get_uid_by_name, root_level_account, Account, UserError,
};

fn args(words: &[&str]) -> Vec<String> {
    words.iter().map(|w| w.to_string()).collect()
}

#[test]
fn numbers_are_read_as_the_standard_library_reads_them() {
    let cases = [
        "0", "7", "42", "007", "+5", "+", "", "-1", "1 ", " 1", "1_000", "12a", "4294967295",
        "4294967296", "99999999999999999999999", "+0", "++1", "٣",
    ];
    for text in cases {
        assert_eq!(parse_decimal(text, u32::MAX as u64), text.parse::<u32>().ok().map(u64::from));
        assert_eq!(parse_decimal(text, u64::MAX), text.parse::<u64>().ok());
    }
    assert_eq!(parse_decimal("18446744073709551615", u64::MAX), Some(u64::MAX));
    assert_eq!(parse_decimal("18446744073709551616", u64::MAX), None);
    assert_eq!(parse_decimal("9", 8), None);
    assert_eq!(parse_decimal("8", 8), Some(8));
}

#[test]
fn a_pid_file_names_a_process_id() {
    assert_eq!(read_pid("1234"), Some(1234));
    assert_eq!(read_pid("4294967295"), Some(4294967295));
    // A process id of 0 counts as a corrupt file.
    assert_eq!(read_pid("0"), None);
    assert_eq!(read_pid("000"), None);
    assert_eq!(read_pid(""), None);
    assert_eq!(read_pid("12x"), None);
    assert_eq!(read_pid("4294967296"), None);
    assert_eq!(read_pid("-5"), None);
}

#[test]
fn a_supervisor_follows_its_process() {
    let mut sup = Supervisor::new(ServicePidSource::Files, 100);
    assert_eq!(sup.status(), ProcessState::Down);
    assert_eq!(sup.state_entered(), 100);
    assert_eq!(sup.stop(), StopAction::NoPid);

    // Nothing is known, the pid file names 77, and 77 is alive.
    assert_eq!(sup.candidate(Some(77)), Some(77));
    assert!(sup.check_process(Some(77), true, 200));
    assert_eq!(sup.status(), ProcessState::Up);
    assert_eq!(sup.pid, Some(77));
    assert_eq!(sup.state_entered(), 200);
    // Once a process id is known, the source is not asked.
    assert_eq!(sup.candidate(Some(99)), Some(77));
    // Still up: the state keeps its time.
    assert!(sup.check_process(Some(77), true, 300));
    assert_eq!(sup.state_entered(), 200);
    assert_eq!(sup.stop(), StopAction::Terminate(77));
    // The process has died.
    assert!(!sup.check_process(Some(77), false, 400));
    assert_eq!(sup.status(), ProcessState::Down);
    assert_eq!(sup.pid, None);
    assert_eq!(sup.state_entered(), 400);
    // No process id is to be had.
    assert!(!sup.check_process(None, true, 500));
    assert_eq!(sup.state_entered(), 400);

    sup.start(0, 600);
    assert_eq!(sup.status(), ProcessState::Up);
    assert_eq!(sup.stop(), StopAction::PidZero);
}

#[test]
fn a_hook_without_an_exit_value_is_run_again() {
    assert!(hook_should_retry(None));
    assert!(hook_should_retry(Some(true)));
    assert!(!hook_should_retry(Some(false)));
}

#[test]
fn a_shutdown_is_asked_for_with_or_without_a_wait() {
    assert_eq!(ShutdownInput::from_timeout_in_seconds(None), ShutdownInput { timeout: None });
    assert_eq!(
        ShutdownInput::from_timeout_in_seconds(Some(8)),
        ShutdownInput { timeout: Some(ShutdownTimeout(8)) }
    );
    let action = SupervisorAction::StopService {
        service_spec: "witcher.prod".to_string(),
        shutdown_input: ShutdownInput::from_timeout_in_seconds(Some(8)),
    };
    match action {
        SupervisorAction::StopService { shutdown_input, .. } => {
            assert_eq!(shutdown_input.timeout, Some(ShutdownTimeout(8)))
        }
        _ => panic!("another action"),
    }
}

fn myself() -> Effective {
    Effective { username: Some("bio".to_string()), uid: 1000, groupname: None, gid: 100 }
}

#[test]
fn a_service_runs_as_the_user_of_its_package() {
    let info = user_info("hab", "habgroup", true, Some(42), Some(43), myself()).unwrap();
    assert_eq!(info.username, Some("hab".to_string()));
    assert_eq!(info.uid, Some(42));
    assert_eq!(info.groupname, Some("habgroup".to_string()));
    assert_eq!(info.gid, Some(43));
    match user_info("hab", "habgroup", true, None, Some(43), myself()) {
        Err(SupError::UserNotFound(name)) => assert_eq!(name, "hab"),
        other => panic!("the user does not exist: {:?}", other),
    }
    match user_info("hab", "habgroup", true, Some(42), None, myself()) {
        Err(SupError::GroupNotFound(name)) => assert_eq!(name, "habgroup"),
        other => panic!("the group does not exist: {:?}", other),
    }
    let own = user_info("hab", "habgroup", false, None, None, myself()).unwrap();
    assert_eq!(own.username, Some("bio".to_string()));
    assert_eq!(own.uid, Some(1000));
    assert_eq!(own.groupname, None);
    assert_eq!(own.gid, Some(100));
}

#[test]
fn failures_have_their_codes_and_their_words() {
    let cases = [
        (ServiceRunError::Spawn("no".into()), ErrCode::Unknown, "Failed to spawn service process"),
        (
            ServiceRunError::GetUid("hab".into()),
            ErrCode::Unknown,
            "Failed to determine UID for user 'hab'",
        ),
        (
            ServiceRunError::GetGid("hab".into()),
            ErrCode::Unknown,
            "Failed to determine GID for group 'hab'",
        ),
        (
            ServiceRunError::GetCurrentUsername,
            ErrCode::Unknown,
            "Failed to determine current username",
        ),
        (
            ServiceRunError::GroupNotFound("hab".into()),
            ErrCode::GroupNotFound,
            "No GID for group 'hab' could be found",
        ),
        (
            ServiceRunError::UserNotFound("hab".into()),
            ErrCode::UserNotFound,
            "No UID for user 'hab' could be found",
        ),
    ];
    for (error, code, words) in cases {
        assert_eq!(error.err_code(), code);
        assert_eq!(error.message(), words);
    }
}

#[test]
fn the_launcher_listens_to_the_arguments_of_the_supervisor() {
    assert_eq!(
        global_logging_options(&args(&["run", "core/redis"])),
        LoggingOptions { format: None, verbose: false }
    );
    assert_eq!(
        global_logging_options(&args(&["run", "--no-color", "-v"])),
        LoggingOptions { format: Some(OutputFormat::NoColor), verbose: true }
    );
    assert_eq!(
        global_logging_options(&args(&["--json-logging", "--no-color"])),
        LoggingOptions { format: Some(OutputFormat::Json), verbose: false }
    );
    // Only the whole argument counts.
    assert_eq!(
        global_logging_options(&args(&["--no-colors", "-vv"])),
        LoggingOptions { format: None, verbose: false }
    );
    assert!(has_flag(&args(&["a", "b"]), "b"));
    assert!(!has_flag(&args(&["a", "b"]), "c"));
    assert!(same_text("héllo", "héllo"));
    assert!(!same_text("hello", "hellp"));
    assert!(!same_text("hello", "hell"));
}

#[test]
fn the_arguments_say_which_studio_is_meant() {
    assert!(is_docker_studio(&args(&["enter", "-D"]), true));
    assert!(!is_docker_studio(&args(&["enter", "-D"]), false));
    assert!(!is_docker_studio(&args(&["enter", "-d"]), true));
    assert!(is_windows_studio(&args(&["enter"]), true));
    assert!(!is_windows_studio(&args(&["enter", "-D"]), true));
    assert!(!is_windows_studio(&args(&["enter"]), false));
    assert!(has_docker_group("bio", Some(&args(&["root", "bio"]))));
    assert!(!has_docker_group("bio", Some(&args(&["root"]))));
    assert!(!has_docker_group("bio", None));
}

#[test]
fn a_studio_asks_for_the_rights_it_lacks() {
    assert_eq!(rerun_with_sudo_if_needed(true, false, false, false), Privilege::Enough);
    assert_eq!(rerun_with_sudo_if_needed(false, true, true, false), Privilege::Enough);
    assert_eq!(rerun_with_sudo_if_needed(false, true, false, true), Privilege::Rerun);
    assert_eq!(rerun_with_sudo_if_needed(false, false, true, true), Privilege::Rerun);
    assert_eq!(rerun_with_sudo_if_needed(false, false, true, false), Privilege::RootRequired);
    assert_eq!(set_env_var_from_config(false, Some("x".into())), Some("x".to_string()));
    assert_eq!(set_env_var_from_config(true, Some("x".into())), None);
    assert_eq!(set_env_var_from_config(false, None), None);
}

#[test]
fn keep_latest_says_how_much_is_removed() {
    assert_eq!(UninstallMode::from(None), UninstallMode::Single);
    assert_eq!(UninstallMode::from(Some("3")), UninstallMode::KeepLatest(3));
    assert_eq!(UninstallMode::from(Some("0")), UninstallMode::KeepLatest(0));
    assert_eq!(UninstallMode::from(Some("three")), UninstallMode::Single);
    assert_eq!(UninstallMode::from(Some("")), UninstallMode::Single);
    assert_eq!(UninstallMode::from(Some("-1")), UninstallMode::Single);
}

#[test]
fn ring_key_commands_carry_their_arguments() {
    let path = CacheKeyPath { cache_key_path: "/hab/cache/keys".to_string() };
    assert_eq!(path.arg_default(), Some("/hab/cache/keys".to_string()));
    let command = Ring::Key(Key::Export { ring: "prod".to_string(), cache_key_path: path });
    match command {
        Ring::Key(Key::Export { ring, cache_key_path }) => {
            assert_eq!(ring, "prod");
            assert_eq!(cache_key_path.cache_key_path, "/hab/cache/keys");
        }
        _ => panic!("another command"),
    }
    let token = AuthToken { auth_token: None };
    assert!(token.auth_token.is_none());
}

fn account(sid: Option<&str>) -> Account {
    Account { name: "hab".to_string(), sid: sid.map(|s| s.to_string()) }
}

#[test]
fn get_uid_of_current_user() {
    let found = account(Some("S-1-5-21-1004"));
    assert!(get_current_username(Some("Hab")).map(|_| get_uid_by_name(Some(&found))).is_some())
}

#[test]
fn downcase_current_username() {
    assert_eq!(get_current_username(Some("uSer")).unwrap(), "user");
}

#[test]
fn return_none_when_no_user() {
    assert_eq!(get_current_username(None), None);
}

#[test]
fn an_account_has_the_id_that_its_identifier_spells() {
    assert_eq!(
        get_uid_by_name(Some(&account(Some("S-1-5-21-1004")))),
        Some("S-1-5-21-1004".to_string())
    );
    assert_eq!(get_uid_by_name(Some(&account(None))), None);
    assert_eq!(get_uid_by_name(None), None);
    assert_eq!(get_gid_by_name("anything"), Some(String::new()));
    assert_eq!(get_current_groupname(), Some(String::new()));
    assert_eq!(root_level_account("build-7"), "BUILD-7$");
    assert_eq!(get_current_username(Some("ÄRGER")).unwrap(), "ärger");
}

#[test]
fn a_package_needs_its_user() {
    assert!(assert_pkg_user_and_group("hab", "hab", Some(&account(Some("S-1")))).is_ok());
    match assert_pkg_user_and_group("hab", "hab", None) {
        Err(UserError::PermissionFailed(text)) => {
            assert_eq!(text, "Package requires user hab to exist, but it doesn't")
        }
        other => panic!("the user does not exist: {:?}", other),
    }
    assert!(assert_pkg_user_and_group("hab", "hab", Some(&account(None))).is_err());
}

#[test]
fn an_update_is_kept_until_the_service_is_taken_off() {
    let mut updater = ServiceUpdater::new();
    assert_eq!(updater.has_update(b"witcher.prod"), None);
    assert_eq!(updater.worker_of(b"witcher.prod"), None);
    // What is reported of a service that is not watched is ignored.
    updater.found(b"witcher.prod", b"core/witcher/1.0.0/1".to_vec());
    assert_eq!(updater.has_update(b"witcher.prod"), None);

    assert_eq!(updater.add(b"witcher.prod", UpdateStrategy::AtOnce), Some(WorkerKind::AtOnce));
    assert_eq!(updater.add(b"redis.prod", UpdateStrategy::Rolling), Some(WorkerKind::Rolling));
    assert_eq!(updater.add(b"idle.prod", UpdateStrategy::Never), None);
    assert_eq!(updater.worker_of(b"witcher.prod"), Some(WorkerKind::AtOnce));
    assert_eq!(updater.worker_of(b"redis.prod"), Some(WorkerKind::Rolling));
    assert_eq!(updater.worker_of(b"idle.prod"), None);

    updater.found(b"witcher.prod", b"core/witcher/1.2.3/2".to_vec());
    assert_eq!(updater.has_update(b"witcher.prod"), Some(b"core/witcher/1.2.3/2".to_vec()));
    assert_eq!(updater.has_update(b"witcher.prod"), Some(b"core/witcher/1.2.3/2".to_vec()));
    assert_eq!(updater.has_update(b"redis.prod"), None);
    updater.found(b"witcher.prod", b"core/witcher/1.2.4/3".to_vec());
    assert_eq!(updater.has_update(b"witcher.prod"), Some(b"core/witcher/1.2.4/3".to_vec()));

    // Adding a service again starts it afresh.
    assert_eq!(updater.add(b"witcher.prod", UpdateStrategy::Rolling), Some(WorkerKind::Rolling));
    assert_eq!(updater.has_update(b"witcher.prod"), None);
    assert_eq!(updater.worker_of(b"witcher.prod"), Some(WorkerKind::Rolling));
    updater.found(b"redis.prod", b"core/redis/4/4".to_vec());
    updater.remove(b"redis.prod");
    assert_eq!(updater.has_update(b"redis.prod"), None);
    assert_eq!(updater.worker_of(b"redis.prod"), None);
    assert_eq!(updater.add(b"witcher.prod", UpdateStrategy::Never), None);
    assert_eq!(updater.worker_of(b"witcher.prod"), None);
}

#[test]
fn the_source_of_the_process_id_is_asked_only_where_none_is_known() {
    let mut from_files = Supervisor::new(ServicePidSource::Files, 0);
    assert_eq!(from_files.pid_lookup(), PidLookup::File);
    let mut from_launcher = Supervisor::new(ServicePidSource::Launcher, 0);
    assert_eq!(from_launcher.pid_lookup(), PidLookup::Launcher);
    from_files.check_process(Some(12), true, 1);
    from_launcher.check_process(Some(13), true, 1);
    assert_eq!(from_files.pid_lookup(), PidLookup::Known(12));
    assert_eq!(from_launcher.pid_lookup(), PidLookup::Known(13));
    // The process has died: the source is asked again.
    from_files.check_process(Some(12), false, 2);
    assert_eq!(from_files.pid_lookup(), PidLookup::File);
}

#[test]
fn a_spawned_service_is_up_once_its_pid_file_is_written() {
    let mut sup = Supervisor::new(ServicePidSource::Launcher, 100);
    sup.spawned(77);
    assert_eq!(sup.pid, Some(77));
    assert_eq!(sup.status(), ProcessState::Down);
    assert_eq!(sup.state_entered(), 100);
    sup.running(200);
    assert_eq!(sup.status(), ProcessState::Up);
    assert_eq!(sup.state_entered(), 200);
    let mut joined = Supervisor::new(ServicePidSource::Launcher, 100);
    joined.start(77, 200);
    assert_eq!(joined, sup);
}

#[test]
fn a_failed_delete_comes_with_advice() {
    assert_eq!(delete_failure(Some(404)), DeleteFailure::NotFound);
    assert_eq!(delete_failure(Some(422)), DeleteFailure::InUse);
    assert_eq!(delete_failure(Some(500)), DeleteFailure::Other);
    assert_eq!(delete_failure(None), DeleteFailure::Other);
    let ident = "acme/redis/2.0.7/2112010203120101";
    let target = "x86_64-linux";
    assert_eq!(
        delete_advice(DeleteFailure::NotFound, ident, target, "ignored"),
        vec![
            "This package does not exist, or alternatively, you may need to specify a valid \
             platform\ntarget argument other than x86_64-linux."
                .to_string()
        ]
    );
    assert_eq!(
        delete_advice(DeleteFailure::InUse, ident, target, "ignored"),
        vec![
            "Before you can delete this package artifact, demote it from the `stable` \
             channel\nand remove any reverse dependencies."
                .to_string(),
            "Demote the package artifact with the command:\nbio pkg demote \
             acme/redis/2.0.7/2112010203120101 stable x86_64-linux"
                .to_string(),
            "Discover any reverse dependencies with the command:\nbio pkg dependencies \
             --reverse acme/redis/2.0.7/2112010203120101"
                .to_string(),
        ]
    );
    assert_eq!(
        delete_advice(DeleteFailure::Other, ident, target, "Timeout"),
        vec!["Failed to delete the package! Timeout.".to_string()]
    );
}
