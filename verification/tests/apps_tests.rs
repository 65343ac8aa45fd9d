use pm3_adapters::apps_file::{
    check_declared_names, dedup_roots, resolve_entry, parse_tcp_endpoint, resolve_ready_probe, resolve_sandbox,
    working_directory, AppEntry, AppsFile, AppsFileError, ReadyProbe, ReadyProbeEntry,
    SandboxEntry, SpecDefaults,
};
use pm3_adapters::config::RestartConfig;
use pm3_adapters::domain::{ReadScope, SandboxMode};
use pm3_adapters::inline::{diff_lines, encode_service_file, fold_entry, inline_entry, InlineRequest};
use pm3_adapters::program::{fold_home, fold_service_cwd, resolve_program};

fn entry(name: &str) -> AppEntry {
    AppEntry {
        name: name.to_string(),
        script: "/bin/true".to_string(),
        cwd: None,
        args: Vec::new(),
        rejected_env: None,
        depends_on: Vec::new(),
        autorestart: None,
        min_uptime_ms: None,
        max_restarts: None,
        restart_delay_ms: None,
        max_restart_delay_ms: None,
        listen_timeout_ms: None,
        ready_probe: None,
        schedule: None,
        max_memory: None,
        stop_exit_codes: Vec::new(),
        sandbox: None,
    }
}

fn restart() -> RestartConfig {
    RestartConfig {
        autorestart: true,
        min_uptime_ms: 1000,
        max_restarts: 10,
        restart_delay_ms: 100,
        max_restart_delay_ms: 30000,
    }
}

#[test]
fn an_apps_file_needs_distinct_apps_without_env() {
    assert!(matches!(check_declared_names(&AppsFile { apps: vec![] }), Err(AppsFileError::NoApps)));
    let twice = AppsFile { apps: vec![entry("web"), entry("db"), entry("web")] };
    assert!(matches!(check_declared_names(&twice), Err(AppsFileError::DuplicateName(n)) if n == "web"));
    let mut secret = entry("db");
    secret.rejected_env = Some(vec![("K".to_string(), "V".to_string())]);
    let with_env = AppsFile { apps: vec![entry("web"), secret] };
    assert!(matches!(check_declared_names(&with_env), Err(AppsFileError::EnvInYaml { app }) if app == "db"));
    assert!(check_declared_names(&AppsFile { apps: vec![entry("a"), entry("b")] }).is_ok());
}

#[test]
fn tcp_endpoints_are_host_and_port() {
    match parse_tcp_endpoint("web", "127.0.0.1:8080") {
        Ok(ReadyProbe::Tcp { host, port }) => {
            assert_eq!(host, "127.0.0.1");
            assert_eq!(port, 8080);
        },
        other => panic!("unexpected {:?}", other),
    }
    assert!(matches!(
        parse_tcp_endpoint("web", "localhost"),
        Err(AppsFileError::InvalidReadyProbe { reason, .. }) if reason == "use host:port"
    ));
    assert!(matches!(
        parse_tcp_endpoint("web", "h:99999"),
        Err(AppsFileError::InvalidReadyProbe { reason, .. }) if reason == "the port must be a number of 1-65535"
    ));
}

#[test]
fn a_ready_probe_declares_exactly_one_check() {
    let mut e = entry("web");
    assert!(matches!(resolve_ready_probe(&e), Ok(None)));
    e.ready_probe = Some(ReadyProbeEntry { command: Some(vec!["curl".to_string()]), tcp: None });
    assert!(matches!(resolve_ready_probe(&e), Ok(Some(ReadyProbe::Exec { .. }))));
    e.ready_probe = Some(ReadyProbeEntry {
        command: Some(vec!["curl".to_string()]),
        tcp: Some("h:1".to_string()),
    });
    assert!(matches!(
        resolve_ready_probe(&e),
        Err(AppsFileError::InvalidReadyProbe { reason, .. }) if reason == "use exactly one of exec or tcp"
    ));
    e.ready_probe = Some(ReadyProbeEntry { command: None, tcp: None });
    assert!(matches!(resolve_ready_probe(&e), Err(AppsFileError::InvalidReadyProbe { .. })));
}

#[test]
fn repeated_roots_are_dropped() {
    let roots = vec!["/a".to_string(), "/b".to_string(), "/a".to_string()];
    assert_eq!(dedup_roots(roots), vec!["/a".to_string(), "/b".to_string()]);
}

#[test]
fn a_default_sandbox_writes_its_cwd_and_hides_pm3() {
    let forbidden = vec!["/".to_string()];
    let defaults = SpecDefaults {
        restart: restart(),
        sandbox_mode: SandboxMode::WorkspaceWrite,
        sandbox_read: ReadScope::Minimal,
        sandbox_network: false,
        forbidden_writable_roots: &forbidden,
        home_dir: "/home/u/.pm3",
        cfg_dir: "/home/u/.config/pm3",
        search_path: "/usr/bin",
        logs_dir: "/home/u/.pm3/logs",
        tmp_dir: None,
    };
    let e = entry("web");
    let cwd = working_directory(&defaults, &e);
    assert_eq!(cwd, "/home/u/.pm3/web");
    let policy = resolve_sandbox(&defaults, &e, &cwd).expect("resolved");
    assert_eq!(policy.mode, SandboxMode::WorkspaceWrite);
    assert!(!policy.network);
    assert_eq!(
        policy.derived_roots,
        vec!["/home/u/.pm3/web".to_string(), "/home/u/.pm3/logs".to_string()]
    );
    assert_eq!(
        policy.unreadable_roots,
        vec!["/home/u/.pm3".to_string(), "/home/u/.config/pm3".to_string()]
    );

    let mut open = entry("sshd");
    open.sandbox = Some(SandboxEntry {
        mode: Some("danger-full-access".to_string()),
        read: None,
        network: Some(true),
        writable_roots: None,
        readable_roots: None,
    });
    let policy = resolve_sandbox(&defaults, &open, "/srv").expect("resolved");
    assert_eq!(policy.mode, SandboxMode::DangerFullAccess);
    assert!(policy.network);
    assert!(policy.derived_roots.is_empty());

    let mut wrong = entry("bad");
    wrong.sandbox = Some(SandboxEntry {
        mode: Some("open".to_string()),
        read: None,
        network: None,
        writable_roots: None,
        readable_roots: None,
    });
    assert!(matches!(
        resolve_sandbox(&defaults, &wrong, "/srv"),
        Err(AppsFileError::InvalidSandboxMode { mode, .. }) if mode == "open"
    ));
}

#[test]
fn paths_under_home_are_folded() {
    assert_eq!(fold_home("/home/u/bin/app", Some("/home/u")), "${HOME}/bin/app");
    assert_eq!(fold_home("/home/u", Some("/home/u")), "${HOME}");
    assert_eq!(fold_home("/home/user2/x", Some("/home/u")), "/home/user2/x");
    assert_eq!(fold_home("/home/u/x", None), "/home/u/x");
    assert_eq!(fold_service_cwd("PM3_SERVICE_CWD/x"), "${PM3_SERVICE_CWD}/x");
    assert_eq!(fold_service_cwd("${PM3_SERVICE_CWD}/x"), "${PM3_SERVICE_CWD}/x");
}

#[test]
fn an_inline_start_becomes_a_service_file() {
    let args = vec![
        "--dir".to_string(),
        "/home/u/data".to_string(),
        "PM3_SERVICE_CWD/x".to_string(),
    ];
    let writable = vec!["/home/u/out".to_string(), "/home/u/out".to_string()];
    let none: Vec<String> = Vec::new();
    let codes: Vec<i32> = vec![0, 143];
    let request = InlineRequest {
        name: "web",
        program: "/home/u/bin/app",
        args: &args,
        cwd: Some("/home/u/srv"),
        home: Some("/home/u"),
        cron: None,
        autorestart: Some(false),
        network: true,
        writable_dirs: &writable,
        readable_dirs: &none,
        max_memory: Some("300M"),
        ready_exec: &none,
        ready_tcp: Some("127.0.0.1:80"),
        listen_timeout_ms: None,
        stop_exit_codes: &codes,
    };
    let e = inline_entry(&request);
    assert_eq!(e.script, "${HOME}/bin/app");
    assert_eq!(e.cwd, Some("${HOME}/srv".to_string()));
    let text = encode_service_file(&e);
    let expected = [
        "name: \"web\"\n",
        "script: \"${HOME}/bin/app\"\n",
        "cwd: \"${HOME}/srv\"\n",
        "args:\n",
        "  - \"--dir\"\n",
        "  - \"${HOME}/data\"\n",
        "  - \"${PM3_SERVICE_CWD}/x\"\n",
        "autorestart: false\n",
        "max_memory: \"300M\"\n",
        "stop_exit_codes:\n",
        "  - 0\n",
        "  - 143\n",
        "ready_probe:\n",
        "  tcp: \"127.0.0.1:80\"\n",
        "sandbox:\n",
        "  network: true\n",
        "  writable_roots:\n",
        "    - \"${HOME}/out\"\n",
    ]
    .concat();
    assert_eq!(text, expected);
}

#[test]
fn dollars_and_quotes_are_escaped_in_service_files() {
    let mut e = entry("w");
    e.args = vec!["a$b \"c\"".to_string()];
    let text = encode_service_file(&e);
    assert!(text.contains("  - \"a\\x24b \\\"c\\\"\"\n"));
}

#[test]
fn folding_twice_changes_nothing_more() {
    let mut e = entry("w");
    e.script = "/home/u/run".to_string();
    let once = fold_entry(&e, Some("/home/u"));
    let twice = fold_entry(&once, Some("/home/u"));
    assert_eq!(once.script, twice.script);
}

#[test]
fn diffs_mark_removed_and_added_lines() {
    assert!(diff_lines("a\nb\n", "a\nb\n").is_empty());
    assert_eq!(
        diff_lines("a\nb\nc", "a\nB"),
        vec!["-b".to_string(), "+B".to_string(), "-c".to_string()]
    );
}

#[test]
fn programs_are_found_on_the_search_path() {
    assert_eq!(resolve_program("sh", Some("/nonexistent:/bin")), Some("/bin/sh".to_string()));
    assert_eq!(resolve_program("sh", None), None);
    assert_eq!(resolve_program("/nonexistent/prog", Some("/bin")), None);
}

fn kib(limit: &str) -> Option<u64> {
    limit.strip_suffix('M').and_then(|n| n.parse::<u64>().ok()).map(|n| n * 1024)
}

#[test]
fn an_entry_resolves_into_what_pm3_runs() {
    let forbidden: Vec<String> = Vec::new();
    let defaults = SpecDefaults {
        restart: restart(),
        sandbox_mode: SandboxMode::ReadOnly,
        sandbox_read: ReadScope::Minimal,
        sandbox_network: false,
        forbidden_writable_roots: &forbidden,
        home_dir: "/h/.pm3",
        cfg_dir: "/h/.config/pm3",
        search_path: "/nonexistent:/bin",
        logs_dir: "/h/.pm3/logs",
        tmp_dir: None,
    };
    let mut e = entry("web");
    e.script = "sh".to_string();
    e.max_restarts = Some(3);
    e.max_memory = Some("300M".to_string());
    let spec = resolve_entry(&defaults, &e, kib).expect("resolved");
    assert_eq!(spec.script, "/bin/sh");
    assert_eq!(spec.cwd, "/h/.pm3/web");
    assert_eq!(spec.max_restarts, 3);
    assert_eq!(spec.min_uptime_ms, 1000);
    assert_eq!(spec.max_memory_kib, Some(300 * 1024));
    assert!(spec.sandbox.derived_roots.is_empty());

    e.max_memory = Some("lots".to_string());
    assert!(matches!(
        resolve_entry(&defaults, &e, kib),
        Err(AppsFileError::InvalidMemoryLimit { limit, .. }) if limit == "lots"
    ));
    e.script = "no-such-program-here".to_string();
    assert!(matches!(
        resolve_entry(&defaults, &e, kib),
        Err(AppsFileError::ProgramNotFound { program, .. }) if program == "no-such-program-here"
    ));
    e.rejected_env = Some(vec![]);
    assert!(matches!(resolve_entry(&defaults, &e, kib), Err(AppsFileError::EnvInYaml { .. })));
}

#[test]
fn a_readiness_port_of_zero_is_refused() {
    assert!(matches!(
        parse_tcp_endpoint("web", "localhost:0"),
        Err(AppsFileError::InvalidReadyProbe { app, reason })
            if app == "web" && reason == "the port must be a number of 1-65535"
    ));
    assert!(matches!(
        parse_tcp_endpoint("web", "localhost:1"),
        Ok(ReadyProbe::Tcp { host, port: 1 }) if host == "localhost"
    ));
}

#[test]
fn folding_the_service_directory_twice_changes_nothing() {
    for v in ["PM3_SERVICE_CWD/data", "${PM3_SERVICE_CWD}/x", "a PM3_SERVICE_CWD b ${PM3_SERVICE_CWD", "plain"] {
        let once = fold_service_cwd(v);
        assert_eq!(fold_service_cwd(&once), once);
    }
    assert_eq!(fold_service_cwd("PM3_SERVICE_CWD/data"), "${PM3_SERVICE_CWD}/data");
    assert_eq!(fold_service_cwd("${PM3_SERVICE_CWD}/x"), "${PM3_SERVICE_CWD}/x");
}
