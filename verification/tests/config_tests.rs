use pm3_adapters::config::{
    accept_config, config_check_outcome, config_ok_report, validate_config, validate_pm3_config,
    validate_telemetry_config, AdapterError, AppConfig, ConfigError, Pm3Config, RestartConfig,
    SandboxConfig, ServiceConfig, TelemetryConfig,
};
use pm3_adapters::env_file::{parse_env_file, EnvFileError};
use pm3_adapters::loader::{
    placeholder_names, redact_url, substitute_with, ConfigLoadError, EnvRead, EnvSnapshot,
};

fn pm3() -> Pm3Config {
    Pm3Config {
        home: "/home/u/.pm3".to_string(),
        cfg_dir: "/home/u/.config/pm3".to_string(),
        search_path: "/usr/bin:/bin".to_string(),
        stop_signal: "TERM".to_string(),
        kill_timeout_ms: 5000,
        start_timeout_ms: 5000,
        drain_timeout_secs: 10,
        request_timeout_ms: 5000,
        command_timeout_ms: 5000,
        daemon_poll_interval_ms: 100,
        daemon_poll_max_interval_ms: 1000,
        memory_poll_interval_ms: 1000,
        liveness_poll_interval_ms: 30000,
        liveness_failure_threshold: 3,
        log_follow_interval_ms: 200,
        log_tail_lines: 15,
        log_read_max_bytes: 4194304,
        log_rotate_max_bytes: 10485760,
        log_rotate_interval_ms: 60000,
        ready_timeout_ms: 30000,
        ready_poll_interval_ms: 500,
        daemon_channel_depth: 64,
        request_body_limit_bytes: 65536,
        sops_identity_file: String::new(),
        sops_program: "sops".to_string(),
        sops_timeout_ms: 5000,
        restart: RestartConfig {
            autorestart: true,
            min_uptime_ms: 1000,
            max_restarts: 10,
            restart_delay_ms: 100,
            max_restart_delay_ms: 30000,
        },
        sandbox: SandboxConfig {
            mode: "workspace-write".to_string(),
            read: "minimal".to_string(),
            network: false,
            seatbelt_program: "/usr/bin/sandbox-exec".to_string(),
            bwrap_program: "bwrap".to_string(),
            minimal_read_roots: vec!["/usr".to_string(), "/bin".to_string()],
            forbidden_writable_roots: vec!["/".to_string()],
        },
        service: ServiceConfig {
            label: "pm3".to_string(),
            restart_delay_secs: 5,
            restart_condition: "on-failure".to_string(),
            max_tasks: 512,
            cpu_quota_percent: 100,
            wait_for_network: false,
            launchctl_path: "/bin/launchctl".to_string(),
            systemctl_path: "systemctl".to_string(),
            loginctl_path: "loginctl".to_string(),
            schtasks_path: "schtasks".to_string(),
            taskkill_path: "taskkill".to_string(),
        },
    }
}

fn telemetry() -> TelemetryConfig {
    TelemetryConfig {
        service_name: "pm3".to_string(),
        log_level: "info".to_string(),
        log_format: "pretty".to_string(),
    }
}

#[test]
fn a_sound_configuration_is_accepted() {
    assert!(validate_pm3_config(&pm3()).is_ok());
    assert!(validate_telemetry_config(&telemetry()).is_ok());
    let cfg = AppConfig { pm3: pm3(), telemetry: telemetry() };
    assert!(validate_config(&cfg).is_ok());
    let loaded = accept_config("pm3: {}".to_string(), cfg).expect("accepted");
    assert_eq!(loaded.source, "pm3: {}");
}

#[test]
fn the_first_broken_rule_is_reported() {
    let mut p = pm3();
    p.home = String::new();
    assert!(matches!(validate_pm3_config(&p), Err(ConfigError::InvalidHome)));
    let mut p = pm3();
    p.cfg_dir = String::new();
    assert!(matches!(validate_pm3_config(&p), Err(ConfigError::InvalidCfgDir)));
    let mut p = pm3();
    p.kill_timeout_ms = 0;
    assert!(matches!(validate_pm3_config(&p), Err(ConfigError::InvalidKillTimeout(0))));
    let mut p = pm3();
    p.daemon_poll_max_interval_ms = 50;
    assert!(matches!(
        validate_pm3_config(&p),
        Err(ConfigError::InvalidPollCeiling { max: 50, floor: 100 })
    ));
    let mut p = pm3();
    p.stop_signal = "STOP".to_string();
    assert!(matches!(validate_pm3_config(&p), Err(ConfigError::InvalidStopSignal(s)) if s == "STOP"));
    let mut p = pm3();
    p.sandbox.mode = "open".to_string();
    assert!(matches!(validate_pm3_config(&p), Err(ConfigError::InvalidSandboxMode { mode, .. }) if mode == "open"));
    let mut p = pm3();
    p.sandbox.minimal_read_roots = vec![];
    assert!(matches!(validate_pm3_config(&p), Err(ConfigError::EmptyMinimalReadRoots)));
    let mut p = pm3();
    p.sandbox.forbidden_writable_roots = vec!["tmp".to_string()];
    assert!(matches!(
        validate_pm3_config(&p),
        Err(ConfigError::RelativeSandboxRoot { root, .. }) if root == "tmp"
    ));
    let mut p = pm3();
    p.service.label = ".pm3".to_string();
    assert!(matches!(validate_pm3_config(&p), Err(ConfigError::DottedServiceLabel(l)) if l == ".pm3"));
    let mut p = pm3();
    p.service.label = "pm 3".to_string();
    assert!(matches!(
        validate_pm3_config(&p),
        Err(ConfigError::UnsafeServiceLabel { character: ' ', .. })
    ));
    let mut p = pm3();
    p.service.restart_condition = "never".to_string();
    assert!(matches!(validate_pm3_config(&p), Err(ConfigError::InvalidRestartCondition(c)) if c == "never"));
    let mut p = pm3();
    p.sops_program = String::new();
    assert!(matches!(
        validate_pm3_config(&p),
        Err(ConfigError::EmptyProgram { field: "pm3.sops_program" })
    ));
    let mut p = pm3();
    p.home = "/home/u\n".to_string();
    assert!(matches!(
        validate_pm3_config(&p),
        Err(ConfigError::UnsafeLineBreak { field: "pm3.home" })
    ));
}

#[test]
fn telemetry_rules_are_checked() {
    let mut t = telemetry();
    t.log_level = "loud".to_string();
    assert!(matches!(validate_telemetry_config(&t), Err(ConfigError::InvalidLogLevel(l)) if l == "loud"));
    let mut t = telemetry();
    t.log_format = "xml".to_string();
    assert!(matches!(validate_telemetry_config(&t), Err(ConfigError::InvalidLogFormat(f)) if f == "xml"));
    let mut t = telemetry();
    t.service_name = String::new();
    assert!(matches!(validate_telemetry_config(&t), Err(ConfigError::InvalidServiceName)));
    let cfg = AppConfig { pm3: pm3(), telemetry: t };
    assert!(matches!(accept_config(String::new(), cfg), Err(AdapterError::Parse(ConfigError::InvalidServiceName))));
}

#[test]
fn the_check_report_names_the_file() {
    assert_eq!(config_ok_report("/etc/pm3.yaml"), "Config OK: /etc/pm3.yaml");
}

fn snapshot(entries: Vec<(&str, EnvRead)>) -> EnvSnapshot {
    EnvSnapshot { entries: entries.into_iter().map(|(k, v)| (k.to_string(), v)).collect() }
}

#[test]
fn placeholders_take_values_or_defaults() {
    let env = snapshot(vec![("PORT", EnvRead::Present("8080".to_string()))]);
    assert_eq!(substitute_with("port: ${PORT}", &env).unwrap(), "port: 8080");
    assert_eq!(substitute_with("h: ${HOST:-localhost}", &env).unwrap(), "h: localhost");
    assert_eq!(substitute_with("plain text", &env).unwrap(), "plain text");
    assert_eq!(substitute_with("cost: $5 ${", &env).unwrap(), "cost: $5 ${");
}

#[test]
fn placeholder_failures_name_the_variable() {
    let env = snapshot(vec![
        ("BAD", EnvRead::Present("a\"b".to_string())),
        ("RAW", EnvRead::NotUnicode),
    ]);
    assert!(matches!(
        substitute_with("${MISSING}", &env),
        Err(ConfigLoadError::EnvVarNotSet { name }) if name == "MISSING"
    ));
    assert!(matches!(
        substitute_with("${BAD}", &env),
        Err(ConfigLoadError::EnvVarNotYamlSafe { name, character }) if name == "BAD" && character == "\\\""
    ));
    assert!(matches!(
        substitute_with("${RAW}", &env),
        Err(ConfigLoadError::EnvVarNotUnicode { name }) if name == "RAW"
    ));
}

#[test]
fn placeholder_names_are_listed_in_order() {
    let names = placeholder_names("a: ${A}\nb: ${B:-x}\nc: ${A}");
    assert_eq!(names, vec!["A".to_string(), "B".to_string(), "A".to_string()]);
    assert!(placeholder_names("none here").is_empty());
}

#[test]
fn urls_lose_their_secrets() {
    assert_eq!(
        redact_url("postgres://user:pw@db:5432/app?sslmode=require&password=x"),
        "postgres://***@db:5432/app?sslmode=require&password=***"
    );
    assert_eq!(redact_url("sqlite://pm3.db"), "sqlite://pm3.db");
    assert_eq!(redact_url("http://h/p?Api_Key=1&a=2"), "http://h/p?Api_Key=***&a=2");
}

#[test]
fn env_files_give_sorted_pairs() {
    let text = "# comment\nZED=1\n\nALPHA=\"a\\tb\"\nHOME_DIR=$HOME/x\nQ='lit $HOME'\n";
    let pairs = parse_env_file("/c/app.env", Some("/home/u"), text).expect("parsed");
    assert_eq!(
        pairs,
        vec![
            ("ALPHA".to_string(), "a\tb".to_string()),
            ("HOME_DIR".to_string(), "/home/u/x".to_string()),
            ("Q".to_string(), "lit $HOME".to_string()),
            ("ZED".to_string(), "1".to_string()),
        ]
    );
}

#[test]
fn env_file_refusals_name_the_line() {
    assert!(matches!(
        parse_env_file("/c/a.env", None, "A=1\nnot a pair\n"),
        Err(EnvFileError::Malformed { line: 2, .. })
    ));
    assert!(matches!(
        parse_env_file("/c/a.env", None, "1A=x\n"),
        Err(EnvFileError::UnsafeKey { key, line: 1, .. }) if key == "1A"
    ));
    assert!(matches!(
        parse_env_file("/c/a.env", None, "A=1\nA=2\n"),
        Err(EnvFileError::DuplicateKey { key, line: 2, .. }) if key == "A"
    ));
}

#[test]
fn config_check_follows_loading() {
    let cfg = AppConfig { pm3: pm3(), telemetry: telemetry() };
    assert_eq!(config_check_outcome("/c/config.yaml", Ok(cfg)).unwrap(), "Config OK: /c/config.yaml");
    let failed = config_check_outcome("/c/config.yaml", Err(AdapterError::Parse(ConfigError::InvalidServiceName)));
    assert!(matches!(failed, Err(AdapterError::Parse(ConfigError::InvalidServiceName))));
}
