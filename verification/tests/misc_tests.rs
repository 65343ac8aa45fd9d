use pm3_adapters::api::{readiness_verdict, ErrorResponse, HealthResponse};
use pm3_adapters::database::{
    failed_status, format_db_status_report, format_migration_status, reachable_status, readiness,
    timed_out_status, DbHealthState, MigrationCounts, PoolStatus,
};
use pm3_adapters::domain::{validate_app_name, AppSelector, SpecError};
use pm3_adapters::enc_file::{
    closed_secrets, decrypt_arguments, decrypt_environment, decryption_result, enc_file_of,
    env_file_of, service_file_of, Decryptor, EncFileError, Opened, RunOutcome,
};
use pm3_adapters::http::{
    app_action_path, app_path, classify_status_result, refusal, request_id_from, HealthDto,
};
use pm3_adapters::install::{
    backup_name, backup_root, destination_of, parse_version_output, staged_path, InstallError,
};
use pm3_adapters::logs::{
    backup_path, line_breaks, must_restart, next_chunk, oversized, tail_lines, take_complete_lines,
    absorb_appended, tail_of_bytes,
};
use pm3_adapters::paths::{resolve_runtime_root, RuntimeSources,
    check_socket_length, expand_home, resolve_paths, PathError, Pm3Roots,
};
use pm3_adapters::persistence::{
    decode_state, encode_states, rejoin_outcome, snapshot_of, staging_path, stranded_from,
    stranded_of, DecodeError, IdentityDto, ProcessRecord, ProcessRuntime, Rejoined, RuntimeDto, StateDto,
};
use pm3_adapters::apps_file::AppsFileError;

#[test]
fn app_names_and_selectors() {
    assert!(validate_app_name("web-1.api_x").is_ok());
    assert!(matches!(validate_app_name(".hidden"), Err(SpecError::InvalidName { name }) if name == ".hidden"));
    assert!(validate_app_name("").is_err());
    assert!(validate_app_name("a b").is_err());
    assert!(matches!(AppSelector::parse("42"), AppSelector::Id(42)));
    assert!(matches!(AppSelector::parse("web"), AppSelector::Name(n) if n == "web"));
    assert!(matches!(AppSelector::parse("99999999999"), AppSelector::Name(_)));
}

#[test]
fn request_paths_name_addressable_apps() {
    assert_eq!(app_path("web").unwrap(), "/apps/web");
    assert_eq!(app_action_path("7", "stop").unwrap(), "/apps/7/stop");
    assert!(app_path("../x").is_err());
    assert_eq!(classify_status_result(503), "server_error");
    assert_eq!(classify_status_result(404), "client_error");
    assert_eq!(classify_status_result(200), "ok");
    assert_eq!(HealthDto::healthy().status, "ok");
    assert_eq!(request_id_from(Some("abc"), 7), "abc");
    assert_eq!(request_id_from(Some(""), 7), "7");
    assert_eq!(request_id_from(None, 12), "12");
    let r = refusal("no".to_string());
    assert_eq!(r.report, "no");
    assert!(r.service.is_none());
}

#[test]
fn the_directories_of_pm3() {
    let paths = resolve_paths(Pm3Roots::single("/home/u/.pm3"));
    assert_eq!(paths.socket, "/home/u/.pm3/pm3.sock");
    assert_eq!(paths.apps_dir, "/home/u/.pm3");
    assert_eq!(paths.config_file, "/home/u/.pm3/config.yaml");
    let split = resolve_paths(Pm3Roots::split(
        "/c".to_string(),
        "/s".to_string(),
        "/r".to_string(),
        "/d".to_string(),
    ));
    assert_eq!(split.apps_dir, "/s/apps");
    assert_eq!(split.pid_file, "/r/pm3.pid");
    assert_eq!(split.backups_dir, "/d/install-backups");
    assert_eq!(expand_home("~/.pm3", Some("/home/u")).unwrap(), "/home/u/.pm3");
    assert_eq!(expand_home("~", Some("/home/u")).unwrap(), "/home/u");
    assert!(matches!(expand_home("~bob/x", Some("/home/u")), Err(PathError::NamedHome(_))));
    assert!(matches!(expand_home("~/x", None), Err(PathError::MissingHome(_))));
    assert!(matches!(expand_home("rel/x", None), Err(PathError::NotAbsolute(_))));
    assert!(check_socket_length("/tmp/pm3.sock").is_ok());
    let long = format!("/{}", "x".repeat(200));
    assert!(matches!(check_socket_length(&long), Err(PathError::SocketTooLong { length: 201, .. })));
}

#[test]
fn app_files_live_in_the_config_directory() {
    assert_eq!(service_file_of("/c", "web").unwrap(), "/c/web.yaml");
    assert_eq!(env_file_of("/c/", "web").unwrap(), "/c/web.env");
    assert_eq!(enc_file_of("/c", "web").unwrap(), "/c/web.enc.yaml");
    assert!(matches!(service_file_of("/c", "../x"), Err(SpecError::InvalidName { .. })));
}

#[test]
fn decryption_runs_sops_with_a_closed_environment() {
    let extra = vec![("LANG".to_string(), "C".to_string())];
    let decryptor = Decryptor {
        program: "sops",
        identity: "/k/id",
        search_path: "/usr/bin",
        timeout_ms: 900,
        extra_env: &extra,
    };
    let env = decrypt_environment(&decryptor);
    assert_eq!(env.len(), 4);
    assert_eq!(env[0], ("LANG".to_string(), "C".to_string()));
    assert_eq!(env[1], ("SOPS_AGE_SSH_PRIVATE_KEY_FILE".to_string(), "/k/id".to_string()));
    assert_eq!(env[3], ("PATH".to_string(), "/usr/bin".to_string()));
    assert_eq!(
        decrypt_arguments("/c/web.enc.yaml"),
        vec!["-d", "--output-type", "dotenv", "/c/web.enc.yaml"]
    );
    let ok = decryption_result(
        &decryptor,
        "/c/w",
        RunOutcome::Finished { success: true, code: Some(0), stdout: Some("A=1\n".to_string()) },
    );
    assert_eq!(ok.unwrap(), "A=1\n");
    assert!(matches!(
        decryption_result(&decryptor, "/c/w", RunOutcome::Stalled),
        Err(EncFileError::Stalled { timeout_ms: 900, .. })
    ));
    assert!(matches!(
        decryption_result(&decryptor, "/c/w", RunOutcome::SpawnFailed("gone".to_string())),
        Err(EncFileError::Unavailable { program, reason, .. }) if program == "sops" && reason == "gone"
    ));
    assert!(matches!(
        decryption_result(
            &decryptor,
            "/c/w",
            RunOutcome::Finished { success: false, code: None, stdout: None },
        ),
        Err(EncFileError::Refused { code: -1, .. })
    ));
    let unreadable = decryption_result(
        &decryptor,
        "/c/w",
        RunOutcome::Finished { success: true, code: Some(0), stdout: None },
    );
    match unreadable {
        Err(e) => {
            assert_eq!(e.path(), "/c/w");
            assert!(matches!(e, EncFileError::Unreadable { .. }));
        },
        Ok(_) => panic!("output that is not text is refused"),
    }
    assert!(matches!(closed_secrets(false, "/k"), Some(Opened::Absent)));
    assert!(matches!(closed_secrets(true, ""), Some(Opened::Sealed)));
    assert!(closed_secrets(true, "/k").is_none());
}

#[test]
fn installs_go_where_declared_or_under_home() {
    assert_eq!(destination_of(Some("/opt/pm3"), Some("/h")).unwrap(), "/opt/pm3");
    assert_eq!(destination_of(Some(""), Some("/h")).unwrap(), "/h/bin/pm3");
    assert!(matches!(destination_of(None, None), Err(InstallError::DestinationHome)));
    assert_eq!(backup_root(None, "/h/.pm3"), "/h/.pm3/install-backups");
    assert_eq!(backup_root(Some("/b"), "/h/.pm3"), "/b");
    assert_eq!(backup_name(Some("1.2.3")), "1.2.3");
    assert_eq!(backup_name(Some("1.2 3")), "unknown");
    assert_eq!(backup_name(None), "unknown");
    assert_eq!(parse_version_output("pm3 0.4.1\n"), Some("0.4.1".to_string()));
    assert_eq!(parse_version_output("pm3 v/1"), None);
    assert_eq!(parse_version_output("   "), None);
    assert_eq!(staged_path("/h/bin/pm3"), "/h/bin/pm3.incoming");
    assert!(matches!(
        InstallError::replace("/x", "denied"),
        InstallError::Replace { path, reason } if path == "/x" && reason == "denied"
    ));
}

#[test]
fn log_tails_and_rotation() {
    assert_eq!(tail_lines("a\nb\nc\n", 2), vec!["b".to_string(), "c".to_string()]);
    assert_eq!(tail_lines("a\nb", 5), vec!["a".to_string(), "b".to_string()]);
    assert!(tail_lines("a\nb", 0).is_empty());
    assert_eq!(line_breaks(b"a\nb\n\n"), 3);
    assert_eq!(next_chunk(100_000, 0, 10), Some((100_000 - 65_536, 65_536)));
    assert_eq!(next_chunk(10, 0, 10), Some((0, 10)));
    assert_eq!(next_chunk(0, 0, 10), None);
    assert_eq!(next_chunk(10, 11, 10), None);
    assert!(oversized(11, 10));
    assert!(!oversized(10, 10));
    assert!(must_restart(true, 5, 1));
    assert!(must_restart(false, 1, 5));
    assert!(!must_restart(false, 5, 5));
    assert_eq!(backup_path("/l/web.out.log"), "/l/web.out.log.1");
    let mut pending = b"one\ntwo\nthr".to_vec();
    let lines = take_complete_lines(&mut pending);
    assert_eq!(lines, vec![b"one".to_vec(), b"two".to_vec()]);
    assert_eq!(pending, b"thr".to_vec());
}

#[test]
fn database_reports() {
    let counts = MigrationCounts { applied: 3, total: 5 };
    assert_eq!(counts.pending(), 2);
    assert_eq!(MigrationCounts { applied: 7, total: 5 }.pending(), 0);
    assert_eq!(format_migration_status(counts), "Migrations: 3 applied, 2 pending (of 5 total)");
    let m = readiness(4, 4);
    assert_eq!(m.pending, 0);
    let up = reachable_status(m, PoolStatus { size: 5, idle: 2, max: 10 });
    assert_eq!(up.state, DbHealthState::Connected);
    assert_eq!(
        format_db_status_report(&up, Ok(counts)),
        "Database: connected\nPool: 3 active, 2 idle, 10 max\nMigrations: 3 applied, 2 pending (of 5 total)"
    );
    let behind = reachable_status(readiness(1, 4), PoolStatus { size: 1, idle: 1, max: 1 });
    assert_eq!(behind.state, DbHealthState::MigrationsPending);
    let down = failed_status("refused");
    assert_eq!(down.status, "error: refused");
    assert_eq!(
        format_db_status_report(&down, Err("no table")),
        "Database: error: refused\nMigrations: error: no table"
    );
    assert_eq!(timed_out_status().status, "error: health check timed out");
    assert_eq!(readiness_verdict(None), ("disabled", true));
    assert_eq!(readiness_verdict(Some(DbHealthState::Connected)), ("ok", true));
    assert_eq!(readiness_verdict(Some(DbHealthState::MigrationsPending)), ("error", false));
    assert_eq!(HealthResponse::live().status, "ok");
    assert_eq!(ErrorResponse::of("x").error, "x");
}

#[test]
fn saved_state_keeps_what_finds_a_process_again() {
    let state = StateDto {
        name: "web".to_string(),
        runtime: RuntimeDto {
            pm_id: 1,
            status: "online".to_string(),
            restart_time: 0,
            unstable_restarts: 0,
            created_at_ms: 10,
            pid: Some(77),
            started_at_ms: Some(11),
            identity: Some(IdentityDto {
                token: "tok".to_string(),
                launch_digest: "l".to_string(),
                binary_digest: "b".to_string(),
            }),
            schedule_armed: false,
        },
    };
    let stranded = stranded_of(&state);
    assert_eq!(stranded.name, "web");
    assert_eq!(stranded.pid, Some(77));
    assert_eq!(stranded.token, Some("tok".to_string()));
    let snap = snapshot_of(state);
    assert_eq!(snap.pid, Some(77));
    assert_eq!(staging_path("/s/dump.yaml"), "/s/dump.yaml.tmp");
}

fn saved_web(status: &str) -> StateDto {
    StateDto {
        name: "web".to_string(),
        runtime: RuntimeDto {
            pm_id: 3,
            status: status.to_string(),
            restart_time: 2,
            unstable_restarts: 1,
            created_at_ms: 100,
            pid: Some(4242),
            started_at_ms: Some(150),
            identity: Some(IdentityDto {
                token: "tok".to_string(),
                launch_digest: "ld".to_string(),
                binary_digest: "bd".to_string(),
            }),
            schedule_armed: true,
        },
    }
}

fn parse_status(text: &str) -> Option<u8> {
    match text {
        "online" => Some(1),
        "stopped" => Some(0),
        _ => None,
    }
}

fn status_name(status: &u8) -> String {
    if *status == 1 { "online".to_string() } else { "stopped".to_string() }
}

#[test]
fn decoding_a_saved_state_restores_its_runtime() {
    let runtime = decode_state(saved_web("online"), parse_status, |_: &_| Ok::<(), String>(())).unwrap();
    assert_eq!(runtime.name, "web");
    assert_eq!(runtime.pm_id, 3);
    assert_eq!(runtime.status, 1);
    assert_eq!(runtime.pid, Some(4242));
    assert_eq!(runtime.restart_time, 2);
    assert_eq!(runtime.unstable_restarts, 1);
    assert_eq!(runtime.started_at_ms, Some(150));
    assert!(!runtime.pending_restart);
    assert!(runtime.schedule_armed);
    assert_eq!(runtime.identity.as_ref().map(|i| i.token.as_str()), Some("tok"));
    let doc = encode_states(&[ProcessRecord { spec: (), runtime }], status_name);
    assert_eq!(doc.services.len(), 1);
    assert_eq!(doc.services[0].name, "web");
    assert_eq!(doc.services[0].runtime.status, "online");
    assert_eq!(doc.services[0].runtime.pid, Some(4242));
    assert_eq!(doc.services[0].runtime.identity.as_ref().map(|i| i.binary_digest.as_str()), Some("bd"));
}

#[test]
fn decoding_refuses_unknown_and_inconsistent_states() {
    let unknown = decode_state(saved_web("flying"), parse_status, |_: &_| Ok::<(), String>(()));
    assert!(matches!(unknown, Err(DecodeError::UnknownStatus { app, status }) if app == "web" && status == "flying"));
    let refused = decode_state(saved_web("stopped"), parse_status, |rt: &ProcessRuntime<u8>| {
        if rt.status == 0 && rt.pid.is_some() { Err("stopped with a pid".to_string()) } else { Ok(()) }
    });
    assert!(matches!(refused, Err(DecodeError::InconsistentState { app, source }) if app == "web" && source == "stopped with a pid"));
}

#[test]
fn rejoining_keeps_running_services_or_strands_them() {
    let runtime = decode_state(saved_web("online"), parse_status, |_: &_| Ok::<(), String>(())).unwrap();
    let found: Result<&str, AppsFileError> = Ok("spec");
    assert!(matches!(rejoin_outcome(runtime.clone(), found), Ok(Rejoined::Record(ProcessRecord { spec: "spec", .. }))));
    let gone: Result<&str, AppsFileError> = Err(AppsFileError::MissingApp("web".to_string()));
    match rejoin_outcome(runtime.clone(), gone) {
        Ok(Rejoined::Stranded(stranded)) => {
            assert_eq!(stranded.name, "web");
            assert_eq!(stranded.pid, Some(4242));
            assert_eq!(stranded.token.as_deref(), Some("tok"));
        }
        _ => panic!("expected a stranded process"),
    }
    let locked: Result<&str, AppsFileError> =
        Err(AppsFileError::EncFile(EncFileError::Unreadable { path: "/c/web.enc".to_string() }));
    assert!(matches!(rejoin_outcome(runtime.clone(), locked), Err(EncFileError::Unreadable { path }) if path == "/c/web.enc"));
    assert_eq!(stranded_from(runtime).token.as_deref(), Some("tok"));
}

#[test]
fn runtime_root_asks_the_host_only_for_the_user_base() {
    let asked = std::cell::Cell::new(0);
    let never = |_: &str| -> bool { asked.set(asked.get() + 1); true };
    let declared = RuntimeSources { declared: Some("/r"), xdg: Some("/x"), uid: Some(5), state: "/s", exists: never };
    assert_eq!(resolve_runtime_root(&declared), "/r");
    let xdg = RuntimeSources { declared: Some(""), xdg: Some("/x"), uid: Some(5), state: "/s", exists: never };
    assert_eq!(resolve_runtime_root(&xdg), "/x/pm3");
    assert_eq!(asked.get(), 0);
    let seen = std::cell::RefCell::new(Vec::new());
    let present = |p: &str| -> bool { seen.borrow_mut().push(p.to_string()); true };
    let user = RuntimeSources { declared: None, xdg: None, uid: Some(5), state: "/s", exists: present };
    assert_eq!(resolve_runtime_root(&user), "/run/user/5/pm3");
    assert_eq!(*seen.borrow(), vec!["/run/user/5".to_string()]);
    let absent = RuntimeSources { declared: None, xdg: None, uid: Some(5), state: "/s", exists: |_: &str| false };
    assert_eq!(resolve_runtime_root(&absent), "/s/run");
    let nobody = RuntimeSources { declared: None, xdg: None, uid: None, state: "/s", exists: never };
    assert_eq!(resolve_runtime_root(&nobody), "/s/run");
    assert_eq!(asked.get(), 0);
}

#[test]
fn successive_polls_give_the_appended_lines() {
    let mut pending: Vec<u8> = Vec::new();
    let first = absorb_appended(&mut pending, b"one\ntw");
    assert_eq!(first, vec![b"one".to_vec()]);
    assert_eq!(pending, b"tw".to_vec());
    let second = absorb_appended(&mut pending, b"o\r\nthree\n");
    assert_eq!(second, vec![b"two\r".to_vec(), b"three".to_vec()]);
    assert!(pending.is_empty());
}

#[test]
fn the_tail_of_enough_of_the_end_is_the_tail_of_all() {
    let all = "a\nb\nc\nd\ne\n";
    let end = &all[3..];
    assert_eq!(tail_lines(end, 2), tail_lines(all, 2));
    assert_eq!(tail_lines(all, 2), vec!["d".to_string(), "e".to_string()]);
}

#[test]
fn the_tail_of_a_log_read_from_bytes() {
    let all: &[u8] = b"one\ntwo\r\nthr\xffee\nfour";
    assert_eq!(tail_of_bytes(all, 2), vec!["thr\u{fffd}ee".to_string(), "four".to_string()]);
    assert_eq!(tail_of_bytes(all, 9).len(), 4);
    assert_eq!(tail_of_bytes(all, 9)[1], "two");
    assert!(tail_of_bytes(b"", 3).is_empty());
    let end = &all[5..];
    assert_eq!(tail_of_bytes(end, 1), tail_of_bytes(all, 1));
}
