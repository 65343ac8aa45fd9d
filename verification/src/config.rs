use vstd::prelude::*;

use crate::domain::{
    is_literal, is_name_letter, is_name_letter_exec, is_valid_signal, read_scope_of, sandbox_mode_of,
    valid_signals, ReadScope, SandboxMode,
};
use crate::text::{chars_of, contains, contains_exec, starts_with};

verus! {

/// Why a configuration was refused.
#[derive(Debug)]
pub enum ConfigError {
    ParseError(String),
    InvalidHome,
    InvalidCfgDir,
    InvalidKillTimeout(u64),
    InvalidStartTimeout(u64),
    InvalidDrainTimeout(u64),
    InvalidRequestTimeout(u64),
    InvalidCommandTimeout(u64),
    InvalidPollInterval(u64),
    InvalidPollCeiling { max: u64, floor: u64 },
    InvalidFollowInterval(u64),
    InvalidLogTailLines(u64),
    InvalidLogReadMaxBytes(u64),
    InvalidLogRotateInterval(u64),
    InvalidReadyTimeout(u64),
    InvalidReadyPollInterval(u64),
    InvalidChannelDepth(usize),
    InvalidBodyLimit(usize),
    InvalidSopsTimeout(u64),
    InvalidMaxTasks(u64),
    EmptyProgram { field: &'static str },
    InvalidRestartCondition(String),
    InvalidStopSignal(String),
    InvalidMinUptime(u64),
    InvalidMaxRestartDelay(u64),
    InvalidMemoryPollInterval(u64),
    InvalidLivenessPollInterval(u64),
    InvalidLivenessThreshold(u32),
    InvalidSandboxMode { mode: String, expected: String },
    InvalidSandboxRead { read: String, expected: String },
    RelativeSandboxRoot { field: &'static str, root: String },
    EmptyMinimalReadRoots,
    InvalidServiceLabel,
    UnsafeServiceLabel { label: String, character: char },
    DottedServiceLabel(String),
    UnsafeLineBreak { field: &'static str },
    InvalidSearchPath,
    InvalidServiceName,
    InvalidLogLevel(String),
    InvalidLogFormat(String),
}

/// A refusal of a configuration, as plain values.
pub enum ConfigFault {
    ParseError(Seq<char>),
    InvalidHome,
    InvalidCfgDir,
    InvalidKillTimeout(u64),
    InvalidStartTimeout(u64),
    InvalidDrainTimeout(u64),
    InvalidRequestTimeout(u64),
    InvalidCommandTimeout(u64),
    InvalidPollInterval(u64),
    InvalidPollCeiling { max: u64, floor: u64 },
    InvalidFollowInterval(u64),
    InvalidLogTailLines(u64),
    InvalidLogReadMaxBytes(u64),
    InvalidLogRotateInterval(u64),
    InvalidReadyTimeout(u64),
    InvalidReadyPollInterval(u64),
    InvalidChannelDepth(usize),
    InvalidBodyLimit(usize),
    InvalidSopsTimeout(u64),
    InvalidMaxTasks(u64),
    EmptyProgram { field: Seq<char> },
    InvalidRestartCondition(Seq<char>),
    InvalidStopSignal(Seq<char>),
    InvalidMinUptime(u64),
    InvalidMaxRestartDelay(u64),
    InvalidMemoryPollInterval(u64),
    InvalidLivenessPollInterval(u64),
    InvalidLivenessThreshold(u32),
    InvalidSandboxMode { mode: Seq<char>, expected: Seq<char> },
    InvalidSandboxRead { read: Seq<char>, expected: Seq<char> },
    RelativeSandboxRoot { field: Seq<char>, root: Seq<char> },
    EmptyMinimalReadRoots,
    InvalidServiceLabel,
    UnsafeServiceLabel { label: Seq<char>, character: char },
    DottedServiceLabel(Seq<char>),
    UnsafeLineBreak { field: Seq<char> },
    InvalidSearchPath,
    InvalidServiceName,
    InvalidLogLevel(Seq<char>),
    InvalidLogFormat(Seq<char>),
}

impl ConfigError {
    pub open spec fn fault(self) -> ConfigFault {
        match self {
            ConfigError::ParseError(s) => ConfigFault::ParseError(s@),
            ConfigError::InvalidHome => ConfigFault::InvalidHome,
            ConfigError::InvalidCfgDir => ConfigFault::InvalidCfgDir,
            ConfigError::InvalidKillTimeout(v) => ConfigFault::InvalidKillTimeout(v),
            ConfigError::InvalidStartTimeout(v) => ConfigFault::InvalidStartTimeout(v),
            ConfigError::InvalidDrainTimeout(v) => ConfigFault::InvalidDrainTimeout(v),
            ConfigError::InvalidRequestTimeout(v) => ConfigFault::InvalidRequestTimeout(v),
            ConfigError::InvalidCommandTimeout(v) => ConfigFault::InvalidCommandTimeout(v),
            ConfigError::InvalidPollInterval(v) => ConfigFault::InvalidPollInterval(v),
            ConfigError::InvalidPollCeiling { max, floor } => ConfigFault::InvalidPollCeiling {
                max,
                floor,
            },
            ConfigError::InvalidFollowInterval(v) => ConfigFault::InvalidFollowInterval(v),
            ConfigError::InvalidLogTailLines(v) => ConfigFault::InvalidLogTailLines(v),
            ConfigError::InvalidLogReadMaxBytes(v) => ConfigFault::InvalidLogReadMaxBytes(v),
            ConfigError::InvalidLogRotateInterval(v) => ConfigFault::InvalidLogRotateInterval(v),
            ConfigError::InvalidReadyTimeout(v) => ConfigFault::InvalidReadyTimeout(v),
            ConfigError::InvalidReadyPollInterval(v) => ConfigFault::InvalidReadyPollInterval(v),
            ConfigError::InvalidChannelDepth(v) => ConfigFault::InvalidChannelDepth(v),
            ConfigError::InvalidBodyLimit(v) => ConfigFault::InvalidBodyLimit(v),
            ConfigError::InvalidSopsTimeout(v) => ConfigFault::InvalidSopsTimeout(v),
            ConfigError::InvalidMaxTasks(v) => ConfigFault::InvalidMaxTasks(v),
            ConfigError::EmptyProgram { field } => ConfigFault::EmptyProgram { field: field@ },
            ConfigError::InvalidRestartCondition(s) => ConfigFault::InvalidRestartCondition(s@),
            ConfigError::InvalidStopSignal(s) => ConfigFault::InvalidStopSignal(s@),
            ConfigError::InvalidMinUptime(v) => ConfigFault::InvalidMinUptime(v),
            ConfigError::InvalidMaxRestartDelay(v) => ConfigFault::InvalidMaxRestartDelay(v),
            ConfigError::InvalidMemoryPollInterval(v) => ConfigFault::InvalidMemoryPollInterval(v),
            ConfigError::InvalidLivenessPollInterval(v) => ConfigFault::InvalidLivenessPollInterval(
                v,
            ),
            ConfigError::InvalidLivenessThreshold(v) => ConfigFault::InvalidLivenessThreshold(v),
            ConfigError::InvalidSandboxMode { mode, expected } => ConfigFault::InvalidSandboxMode {
                mode: mode@,
                expected: expected@,
            },
            ConfigError::InvalidSandboxRead { read, expected } => ConfigFault::InvalidSandboxRead {
                read: read@,
                expected: expected@,
            },
            ConfigError::RelativeSandboxRoot { field, root } => ConfigFault::RelativeSandboxRoot {
                field: field@,
                root: root@,
            },
            ConfigError::EmptyMinimalReadRoots => ConfigFault::EmptyMinimalReadRoots,
            ConfigError::InvalidServiceLabel => ConfigFault::InvalidServiceLabel,
            ConfigError::UnsafeServiceLabel { label, character } => ConfigFault::UnsafeServiceLabel {
                label: label@,
                character,
            },
            ConfigError::DottedServiceLabel(s) => ConfigFault::DottedServiceLabel(s@),
            ConfigError::UnsafeLineBreak { field } => ConfigFault::UnsafeLineBreak { field: field@ },
            ConfigError::InvalidSearchPath => ConfigFault::InvalidSearchPath,
            ConfigError::InvalidServiceName => ConfigFault::InvalidServiceName,
            ConfigError::InvalidLogLevel(s) => ConfigFault::InvalidLogLevel(s@),
            ConfigError::InvalidLogFormat(s) => ConfigFault::InvalidLogFormat(s@),
        }
    }
}

/// The whole configuration file.
#[derive(Clone, Debug)]
pub struct AppConfig {
    pub pm3: Pm3Config,
    pub telemetry: TelemetryConfig,
}

/// The `pm3` section.
#[derive(Clone, Debug)]
pub struct Pm3Config {
    pub home: String,
    pub cfg_dir: String,
    pub search_path: String,
    pub stop_signal: String,
    pub kill_timeout_ms: u64,
    pub start_timeout_ms: u64,
    pub drain_timeout_secs: u64,
    pub request_timeout_ms: u64,
    pub command_timeout_ms: u64,
    pub daemon_poll_interval_ms: u64,
    pub daemon_poll_max_interval_ms: u64,
    pub memory_poll_interval_ms: u64,
    pub liveness_poll_interval_ms: u64,
    pub liveness_failure_threshold: u32,
    pub log_follow_interval_ms: u64,
    pub log_tail_lines: u64,
    pub log_read_max_bytes: u64,
    pub log_rotate_max_bytes: u64,
    pub log_rotate_interval_ms: u64,
    pub ready_timeout_ms: u64,
    pub ready_poll_interval_ms: u64,
    pub daemon_channel_depth: usize,
    pub request_body_limit_bytes: usize,
    pub sops_identity_file: String,
    pub sops_program: String,
    pub sops_timeout_ms: u64,
    pub restart: RestartConfig,
    pub sandbox: SandboxConfig,
    pub service: ServiceConfig,
}

/// The restart policy every app starts from.
#[derive(Copy, Clone, Debug)]
pub struct RestartConfig {
    pub autorestart: bool,
    pub min_uptime_ms: u64,
    pub max_restarts: u32,
    pub restart_delay_ms: u64,
    pub max_restart_delay_ms: u64,
}

/// The sandbox every app starts from.
#[derive(Clone, Debug)]
pub struct SandboxConfig {
    pub mode: String,
    pub read: String,
    pub network: bool,
    pub seatbelt_program: String,
    pub bwrap_program: String,
    pub minimal_read_roots: Vec<String>,
    pub forbidden_writable_roots: Vec<String>,
}

/// How pm3 itself is installed as a service.
#[derive(Clone, Debug)]
pub struct ServiceConfig {
    pub label: String,
    pub restart_delay_secs: u64,
    pub restart_condition: String,
    pub max_tasks: u64,
    pub cpu_quota_percent: u64,
    pub wait_for_network: bool,
    pub launchctl_path: String,
    pub systemctl_path: String,
    pub loginctl_path: String,
    pub schtasks_path: String,
    pub taskkill_path: String,
}

/// The `telemetry` section.
#[derive(Clone, Debug)]
pub struct TelemetryConfig {
    pub service_name: String,
    pub log_level: String,
    pub log_format: String,
}

pub const DEFAULT_LOG_READ_MAX_BYTES: u64 = 4194304;
pub const DEFAULT_LIVENESS_POLL_INTERVAL_MS: u64 = 30000;
pub const DEFAULT_LIVENESS_FAILURE_THRESHOLD: u32 = 3;
pub const DEFAULT_SOPS_TIMEOUT_MS: u64 = 5000;
pub const SOPS_PROGRAM: &'static str = "sops";
pub const LOG_FORMAT_JSON: &'static str = "json";
pub const LOG_FORMAT_PRETTY: &'static str = "pretty";
pub const STOP_SIGNAL_TERM: &'static str = "TERM";
pub const RESTART_CONDITION_ALWAYS: &'static str = "always";
pub const RESTART_CONDITION_ON_FAILURE: &'static str = "on-failure";
pub const SANDBOX_MODE_READ_ONLY: &'static str = "read-only";
pub const SANDBOX_MODE_WORKSPACE_WRITE: &'static str = "workspace-write";
pub const SANDBOX_MODE_DANGER_FULL_ACCESS: &'static str = "danger-full-access";

/// The decryptor a configuration names when it names none.
pub fn default_sops_program() -> (r: String)
    ensures
        r@ == SOPS_PROGRAM@,
{
    SOPS_PROGRAM.to_string()
}

pub fn default_sops_timeout_ms() -> (r: u64)
    ensures
        r == DEFAULT_SOPS_TIMEOUT_MS,
{
    DEFAULT_SOPS_TIMEOUT_MS
}

pub fn default_liveness_poll_interval_ms() -> (r: u64)
    ensures
        r == DEFAULT_LIVENESS_POLL_INTERVAL_MS,
{
    DEFAULT_LIVENESS_POLL_INTERVAL_MS
}

pub fn default_liveness_failure_threshold() -> (r: u32)
    ensures
        r == DEFAULT_LIVENESS_FAILURE_THRESHOLD,
{
    DEFAULT_LIVENESS_FAILURE_THRESHOLD
}

pub fn default_log_read_max_bytes() -> (r: u64)
    ensures
        r == DEFAULT_LOG_READ_MAX_BYTES,
{
    DEFAULT_LOG_READ_MAX_BYTES
}

// ---------------------------------------------------------------------------
// What makes a configuration acceptable.
// ---------------------------------------------------------------------------

pub open spec fn has_line_break(s: Seq<char>) -> bool {
    contains(s, seq!['\n']) || contains(s, seq!['\r'])
}

/// The paths: set, and free of line breaks.
pub open spec fn paths_fault(pm3: Pm3Config) -> Option<ConfigFault> {
    if pm3.home@.len() == 0 {
        Some(ConfigFault::InvalidHome)
    } else if pm3.cfg_dir@.len() == 0 {
        Some(ConfigFault::InvalidCfgDir)
    } else if pm3.search_path@.len() == 0 {
        Some(ConfigFault::InvalidSearchPath)
    } else if has_line_break(pm3.home@) {
        Some(ConfigFault::UnsafeLineBreak { field: "pm3.home"@ })
    } else if has_line_break(pm3.search_path@) {
        Some(ConfigFault::UnsafeLineBreak { field: "pm3.search_path"@ })
    } else {
        None
    }
}

/// Each time budget is at least one unit.
pub open spec fn timeouts_fault(pm3: Pm3Config) -> Option<ConfigFault> {
    if pm3.kill_timeout_ms < 1 {
        Some(ConfigFault::InvalidKillTimeout(pm3.kill_timeout_ms))
    } else if pm3.start_timeout_ms < 1 {
        Some(ConfigFault::InvalidStartTimeout(pm3.start_timeout_ms))
    } else if pm3.drain_timeout_secs < 1 {
        Some(ConfigFault::InvalidDrainTimeout(pm3.drain_timeout_secs))
    } else if pm3.request_timeout_ms < 1 {
        Some(ConfigFault::InvalidRequestTimeout(pm3.request_timeout_ms))
    } else if pm3.command_timeout_ms < 1 {
        Some(ConfigFault::InvalidCommandTimeout(pm3.command_timeout_ms))
    } else if pm3.ready_timeout_ms < 1 {
        Some(ConfigFault::InvalidReadyTimeout(pm3.ready_timeout_ms))
    } else if pm3.sops_timeout_ms < 1 {
        Some(ConfigFault::InvalidSopsTimeout(pm3.sops_timeout_ms))
    } else {
        None
    }
}

/// Each interval and capacity is at least one unit; the poll ceiling is at
/// least the poll floor.
pub open spec fn intervals_fault(pm3: Pm3Config) -> Option<ConfigFault> {
    if pm3.daemon_poll_interval_ms < 1 {
        Some(ConfigFault::InvalidPollInterval(pm3.daemon_poll_interval_ms))
    } else if pm3.daemon_poll_max_interval_ms < pm3.daemon_poll_interval_ms {
        Some(
            ConfigFault::InvalidPollCeiling {
                max: pm3.daemon_poll_max_interval_ms,
                floor: pm3.daemon_poll_interval_ms,
            },
        )
    } else if pm3.memory_poll_interval_ms < 1 {
        Some(ConfigFault::InvalidMemoryPollInterval(pm3.memory_poll_interval_ms))
    } else if pm3.log_follow_interval_ms < 1 {
        Some(ConfigFault::InvalidFollowInterval(pm3.log_follow_interval_ms))
    } else if pm3.log_tail_lines < 1 {
        Some(ConfigFault::InvalidLogTailLines(pm3.log_tail_lines))
    } else if pm3.log_read_max_bytes < 1 {
        Some(ConfigFault::InvalidLogReadMaxBytes(pm3.log_read_max_bytes))
    } else if pm3.log_rotate_interval_ms < 1 {
        Some(ConfigFault::InvalidLogRotateInterval(pm3.log_rotate_interval_ms))
    } else if pm3.ready_poll_interval_ms < 1 {
        Some(ConfigFault::InvalidReadyPollInterval(pm3.ready_poll_interval_ms))
    } else if pm3.daemon_channel_depth < 1 {
        Some(ConfigFault::InvalidChannelDepth(pm3.daemon_channel_depth))
    } else if pm3.request_body_limit_bytes < 1 {
        Some(ConfigFault::InvalidBodyLimit(pm3.request_body_limit_bytes))
    } else {
        None
    }
}

/// The first root that is not absolute.
pub open spec fn first_relative(roots: Seq<Seq<char>>) -> Option<Seq<char>>
    decreases roots.len(),
{
    if roots.len() == 0 {
        None
    } else if !starts_with(roots[0], seq!['/']) {
        Some(roots[0])
    } else {
        first_relative(roots.skip(1))
    }
}

pub open spec fn sandbox_mode_names() -> Seq<char> {
    "read-only, workspace-write, danger-full-access"@
}

pub open spec fn read_scope_names() -> Seq<char> {
    "full, minimal"@
}

/// The sandbox roots: some minimal read roots, and all roots absolute.
pub open spec fn roots_fault(sandbox: SandboxConfig) -> Option<ConfigFault> {
    if sandbox.minimal_read_roots.len() == 0 {
        Some(ConfigFault::EmptyMinimalReadRoots)
    } else if first_relative(sandbox.minimal_read_roots.deep_view()) is Some {
        Some(
            ConfigFault::RelativeSandboxRoot {
                field: "pm3.sandbox.minimal_read_roots"@,
                root: first_relative(sandbox.minimal_read_roots.deep_view())->0,
            },
        )
    } else if first_relative(sandbox.forbidden_writable_roots.deep_view()) is Some {
        Some(
            ConfigFault::RelativeSandboxRoot {
                field: "pm3.sandbox.forbidden_writable_roots"@,
                root: first_relative(sandbox.forbidden_writable_roots.deep_view())->0,
            },
        )
    } else {
        None
    }
}

/// The choices: a known stop signal, working liveness and restart budgets,
/// a known sandbox mode and read scope, and usable sandbox roots.
pub open spec fn choices_fault(pm3: Pm3Config) -> Option<ConfigFault> {
    if !valid_signals().contains(pm3.stop_signal@) {
        Some(ConfigFault::InvalidStopSignal(pm3.stop_signal@))
    } else if pm3.liveness_poll_interval_ms < 1 {
        Some(ConfigFault::InvalidLivenessPollInterval(pm3.liveness_poll_interval_ms))
    } else if pm3.liveness_failure_threshold < 1 {
        Some(ConfigFault::InvalidLivenessThreshold(pm3.liveness_failure_threshold))
    } else if pm3.restart.min_uptime_ms < 1 {
        Some(ConfigFault::InvalidMinUptime(pm3.restart.min_uptime_ms))
    } else if pm3.restart.max_restart_delay_ms < 1 {
        Some(ConfigFault::InvalidMaxRestartDelay(pm3.restart.max_restart_delay_ms))
    } else if sandbox_mode_of(pm3.sandbox.mode@) is None {
        Some(
            ConfigFault::InvalidSandboxMode {
                mode: pm3.sandbox.mode@,
                expected: sandbox_mode_names(),
            },
        )
    } else if read_scope_of(pm3.sandbox.read@) is None {
        Some(
            ConfigFault::InvalidSandboxRead {
                read: pm3.sandbox.read@,
                expected: read_scope_names(),
            },
        )
    } else {
        roots_fault(pm3.sandbox)
    }
}

/// The first character of a label that a name may not use.
pub open spec fn first_unsafe(label: Seq<char>) -> Option<char>
    decreases label.len(),
{
    if label.len() == 0 {
        None
    } else if !is_name_letter(label[0]) {
        Some(label[0])
    } else {
        first_unsafe(label.skip(1))
    }
}

/// The service label: set, not hidden, and made of name letters.
pub open spec fn label_fault(label: Seq<char>) -> Option<ConfigFault> {
    if label.len() == 0 {
        Some(ConfigFault::InvalidServiceLabel)
    } else if label[0] == '.' {
        Some(ConfigFault::DottedServiceLabel(label))
    } else {
        match first_unsafe(label) {
            Some(c) => Some(ConfigFault::UnsafeServiceLabel { label, character: c }),
            None => None,
        }
    }
}

/// The programs and the restart condition of the service.
pub open spec fn programs_fault(pm3: Pm3Config) -> Option<ConfigFault> {
    if pm3.sandbox.seatbelt_program@.len() == 0 {
        Some(ConfigFault::EmptyProgram { field: "pm3.sandbox.seatbelt_program"@ })
    } else if pm3.sandbox.bwrap_program@.len() == 0 {
        Some(ConfigFault::EmptyProgram { field: "pm3.sandbox.bwrap_program"@ })
    } else if pm3.service.launchctl_path@.len() == 0 {
        Some(ConfigFault::EmptyProgram { field: "pm3.service.launchctl_path"@ })
    } else if pm3.service.systemctl_path@.len() == 0 {
        Some(ConfigFault::EmptyProgram { field: "pm3.service.systemctl_path"@ })
    } else if pm3.service.loginctl_path@.len() == 0 {
        Some(ConfigFault::EmptyProgram { field: "pm3.service.loginctl_path"@ })
    } else if pm3.service.schtasks_path@.len() == 0 {
        Some(ConfigFault::EmptyProgram { field: "pm3.service.schtasks_path"@ })
    } else if pm3.service.taskkill_path@.len() == 0 {
        Some(ConfigFault::EmptyProgram { field: "pm3.service.taskkill_path"@ })
    } else if pm3.sops_program@.len() == 0 {
        Some(ConfigFault::EmptyProgram { field: "pm3.sops_program"@ })
    } else if pm3.service.restart_condition@ != RESTART_CONDITION_ALWAYS@
        && pm3.service.restart_condition@ != RESTART_CONDITION_ON_FAILURE@ {
        Some(ConfigFault::InvalidRestartCondition(pm3.service.restart_condition@))
    } else if pm3.service.max_tasks < 1 {
        Some(ConfigFault::InvalidMaxTasks(pm3.service.max_tasks))
    } else {
        None
    }
}

/// The first rule of the `pm3` section that `pm3` breaks, in the order they are checked.
pub open spec fn pm3_fault(pm3: Pm3Config) -> Option<ConfigFault> {
    if paths_fault(pm3) is Some {
        paths_fault(pm3)
    } else if timeouts_fault(pm3) is Some {
        timeouts_fault(pm3)
    } else if intervals_fault(pm3) is Some {
        intervals_fault(pm3)
    } else if choices_fault(pm3) is Some {
        choices_fault(pm3)
    } else if label_fault(pm3.service.label@) is Some {
        label_fault(pm3.service.label@)
    } else {
        programs_fault(pm3)
    }
}

pub open spec fn valid_log_levels() -> Seq<Seq<char>> {
    seq!["trace"@, "debug"@, "info"@, "warn"@, "error"@]
}

/// The first rule of the `telemetry` section that `t` breaks.
pub open spec fn telemetry_fault(t: TelemetryConfig) -> Option<ConfigFault> {
    if t.service_name@.len() == 0 {
        Some(ConfigFault::InvalidServiceName)
    } else if !valid_log_levels().contains(t.log_level@) {
        Some(ConfigFault::InvalidLogLevel(t.log_level@))
    } else if t.log_format@ != LOG_FORMAT_JSON@ && t.log_format@ != LOG_FORMAT_PRETTY@ {
        Some(ConfigFault::InvalidLogFormat(t.log_format@))
    } else {
        None
    }
}

/// The first rule of the configuration that `cfg` breaks.
pub open spec fn config_fault(cfg: AppConfig) -> Option<ConfigFault> {
    if pm3_fault(cfg.pm3) is Some {
        pm3_fault(cfg.pm3)
    } else {
        telemetry_fault(cfg.telemetry)
    }
}

/// What a check returns for the first rule broken, or for none.
pub open spec fn outcome(fault: Option<ConfigFault>, r: Result<(), ConfigError>) -> bool {
    match r {
        Ok(()) => fault is None,
        Err(e) => fault == Some(e.fault()),
    }
}

// ---------------------------------------------------------------------------
// Checking a configuration.
// ---------------------------------------------------------------------------

/// Checks the whole configuration.
pub fn validate_config(cfg: &AppConfig) -> (r: Result<(), ConfigError>)
    ensures
        outcome(config_fault(*cfg), r),
{
    validate_pm3_config(&cfg.pm3)?;
    validate_telemetry_config(&cfg.telemetry)
}

/// Checks the `pm3` section.
pub fn validate_pm3_config(pm3: &Pm3Config) -> (r: Result<(), ConfigError>)
    ensures
        outcome(pm3_fault(*pm3), r),
{
    validate_paths(pm3)?;
    validate_timeouts(pm3)?;
    validate_intervals(pm3)?;
    validate_choices(pm3)?;
    validate_service_label(&pm3.service.label)?;
    validate_programs(pm3)
}

fn has_line_break_exec(s: &str) -> (r: bool)
    ensures
        r == has_line_break(s@),
{
    let v = chars_of(s);
    let nl = ['\n'];
    let cr = ['\r'];
    assert(nl@ == seq!['\n'] && cr@ == seq!['\r']);
    contains_exec(&v, &nl) || contains_exec(&v, &cr)
}

fn reject_line_break(field: &'static str, value: &str) -> (r: Result<(), ConfigError>)
    ensures
        outcome(
            if has_line_break(value@) {
                Some(ConfigFault::UnsafeLineBreak { field: field@ })
            } else {
                None
            },
            r,
        ),
{
    if has_line_break_exec(value) {
        return Err(ConfigError::UnsafeLineBreak { field });
    }
    Ok(())
}

fn validate_paths(pm3: &Pm3Config) -> (r: Result<(), ConfigError>)
    ensures
        outcome(paths_fault(*pm3), r),
{
    if pm3.home.as_str().is_empty() {
        return Err(ConfigError::InvalidHome);
    }
    if pm3.cfg_dir.as_str().is_empty() {
        return Err(ConfigError::InvalidCfgDir);
    }
    if pm3.search_path.as_str().is_empty() {
        return Err(ConfigError::InvalidSearchPath);
    }
    reject_line_break("pm3.home", &pm3.home)?;
    reject_line_break("pm3.search_path", &pm3.search_path)
}

fn validate_timeouts(pm3: &Pm3Config) -> (r: Result<(), ConfigError>)
    ensures
        outcome(timeouts_fault(*pm3), r),
{
    if pm3.kill_timeout_ms < 1 {
        return Err(ConfigError::InvalidKillTimeout(pm3.kill_timeout_ms));
    }
    if pm3.start_timeout_ms < 1 {
        return Err(ConfigError::InvalidStartTimeout(pm3.start_timeout_ms));
    }
    if pm3.drain_timeout_secs < 1 {
        return Err(ConfigError::InvalidDrainTimeout(pm3.drain_timeout_secs));
    }
    if pm3.request_timeout_ms < 1 {
        return Err(ConfigError::InvalidRequestTimeout(pm3.request_timeout_ms));
    }
    if pm3.command_timeout_ms < 1 {
        return Err(ConfigError::InvalidCommandTimeout(pm3.command_timeout_ms));
    }
    if pm3.ready_timeout_ms < 1 {
        return Err(ConfigError::InvalidReadyTimeout(pm3.ready_timeout_ms));
    }
    if pm3.sops_timeout_ms < 1 {
        return Err(ConfigError::InvalidSopsTimeout(pm3.sops_timeout_ms));
    }
    Ok(())
}

fn validate_intervals(pm3: &Pm3Config) -> (r: Result<(), ConfigError>)
    ensures
        outcome(intervals_fault(*pm3), r),
{
    if pm3.daemon_poll_interval_ms < 1 {
        return Err(ConfigError::InvalidPollInterval(pm3.daemon_poll_interval_ms));
    }
    if pm3.daemon_poll_max_interval_ms < pm3.daemon_poll_interval_ms {
        return Err(
            ConfigError::InvalidPollCeiling {
                max: pm3.daemon_poll_max_interval_ms,
                floor: pm3.daemon_poll_interval_ms,
            },
        );
    }
    if pm3.memory_poll_interval_ms < 1 {
        return Err(ConfigError::InvalidMemoryPollInterval(pm3.memory_poll_interval_ms));
    }
    if pm3.log_follow_interval_ms < 1 {
        return Err(ConfigError::InvalidFollowInterval(pm3.log_follow_interval_ms));
    }
    if pm3.log_tail_lines < 1 {
        return Err(ConfigError::InvalidLogTailLines(pm3.log_tail_lines));
    }
    if pm3.log_read_max_bytes < 1 {
        return Err(ConfigError::InvalidLogReadMaxBytes(pm3.log_read_max_bytes));
    }
    if pm3.log_rotate_interval_ms < 1 {
        return Err(ConfigError::InvalidLogRotateInterval(pm3.log_rotate_interval_ms));
    }
    if pm3.ready_poll_interval_ms < 1 {
        return Err(ConfigError::InvalidReadyPollInterval(pm3.ready_poll_interval_ms));
    }
    if pm3.daemon_channel_depth < 1 {
        return Err(ConfigError::InvalidChannelDepth(pm3.daemon_channel_depth));
    }
    if pm3.request_body_limit_bytes < 1 {
        return Err(ConfigError::InvalidBodyLimit(pm3.request_body_limit_bytes));
    }
    Ok(())
}

fn sandbox_mode_names_exec() -> (r: String)
    ensures
        r@ == sandbox_mode_names(),
{
    "read-only, workspace-write, danger-full-access".to_string()
}

fn read_scope_names_exec() -> (r: String)
    ensures
        r@ == read_scope_names(),
{
    "full, minimal".to_string()
}

fn validate_choices(pm3: &Pm3Config) -> (r: Result<(), ConfigError>)
    ensures
        outcome(choices_fault(*pm3), r),
{
    if !is_valid_signal(&pm3.stop_signal) {
        return Err(ConfigError::InvalidStopSignal(pm3.stop_signal.clone()));
    }
    if pm3.liveness_poll_interval_ms < 1 {
        return Err(ConfigError::InvalidLivenessPollInterval(pm3.liveness_poll_interval_ms));
    }
    if pm3.liveness_failure_threshold < 1 {
        return Err(ConfigError::InvalidLivenessThreshold(pm3.liveness_failure_threshold));
    }
    if pm3.restart.min_uptime_ms < 1 {
        return Err(ConfigError::InvalidMinUptime(pm3.restart.min_uptime_ms));
    }
    if pm3.restart.max_restart_delay_ms < 1 {
        return Err(ConfigError::InvalidMaxRestartDelay(pm3.restart.max_restart_delay_ms));
    }
    if SandboxMode::parse(&pm3.sandbox.mode).is_none() {
        return Err(
            ConfigError::InvalidSandboxMode {
                mode: pm3.sandbox.mode.clone(),
                expected: sandbox_mode_names_exec(),
            },
        );
    }
    if ReadScope::parse(&pm3.sandbox.read).is_none() {
        return Err(
            ConfigError::InvalidSandboxRead {
                read: pm3.sandbox.read.clone(),
                expected: read_scope_names_exec(),
            },
        );
    }
    validate_sandbox_roots(&pm3.sandbox)
}

fn validate_sandbox_roots(sandbox: &SandboxConfig) -> (r: Result<(), ConfigError>)
    ensures
        outcome(roots_fault(*sandbox), r),
{
    if sandbox.minimal_read_roots.len() == 0 {
        return Err(ConfigError::EmptyMinimalReadRoots);
    }
    reject_relative_roots("pm3.sandbox.minimal_read_roots", &sandbox.minimal_read_roots)?;
    reject_relative_roots("pm3.sandbox.forbidden_writable_roots", &sandbox.forbidden_writable_roots)
}

fn reject_relative_roots(field: &'static str, roots: &Vec<String>) -> (r: Result<(), ConfigError>)
    ensures
        outcome(
            match first_relative(roots.deep_view()) {
                Some(root) => Some(ConfigFault::RelativeSandboxRoot { field: field@, root }),
                None => None,
            },
            r,
        ),
{
    let slash = ['/'];
    assert(slash@ == seq!['/']);
    let ghost all = roots.deep_view();
    let mut i: usize = 0;
    assert(all.skip(0) == all);
    while i < roots.len()
        invariant
            i <= roots.len(),
            all == roots.deep_view(),
            slash@ == seq!['/'],
            first_relative(all) == first_relative(all.skip(i as int)),
        decreases roots.len() - i,
    {
        let root = chars_of(&roots[i]);
        assert(all.skip(i as int)[0] == root@);
        assert(all.skip(i as int).skip(1) == all.skip(i + 1));
        if !crate::text::starts_with_exec(&root, &slash) {
            return Err(ConfigError::RelativeSandboxRoot { field, root: roots[i].clone() });
        }
        i = i + 1;
    }
    assert(all.skip(i as int).len() == 0);
    Ok(())
}

fn reject_empty(field: &'static str, value: &str) -> (r: Result<(), ConfigError>)
    ensures
        outcome(
            if value@.len() == 0 {
                Some(ConfigFault::EmptyProgram { field: field@ })
            } else {
                None
            },
            r,
        ),
{
    if value.is_empty() {
        return Err(ConfigError::EmptyProgram { field });
    }
    Ok(())
}

fn validate_programs(pm3: &Pm3Config) -> (r: Result<(), ConfigError>)
    ensures
        outcome(programs_fault(*pm3), r),
{
    reject_empty("pm3.sandbox.seatbelt_program", &pm3.sandbox.seatbelt_program)?;
    reject_empty("pm3.sandbox.bwrap_program", &pm3.sandbox.bwrap_program)?;
    reject_empty("pm3.service.launchctl_path", &pm3.service.launchctl_path)?;
    reject_empty("pm3.service.systemctl_path", &pm3.service.systemctl_path)?;
    reject_empty("pm3.service.loginctl_path", &pm3.service.loginctl_path)?;
    reject_empty("pm3.service.schtasks_path", &pm3.service.schtasks_path)?;
    reject_empty("pm3.service.taskkill_path", &pm3.service.taskkill_path)?;
    reject_empty("pm3.sops_program", &pm3.sops_program)?;
    let condition = chars_of(&pm3.service.restart_condition);
    if !is_literal(&condition, RESTART_CONDITION_ALWAYS) && !is_literal(
        &condition,
        RESTART_CONDITION_ON_FAILURE,
    ) {
        return Err(ConfigError::InvalidRestartCondition(pm3.service.restart_condition.clone()));
    }
    if pm3.service.max_tasks < 1 {
        return Err(ConfigError::InvalidMaxTasks(pm3.service.max_tasks));
    }
    Ok(())
}

fn validate_service_label(label: &String) -> (r: Result<(), ConfigError>)
    ensures
        outcome(label_fault(label@), r),
{
    let v = chars_of(label);
    if v.len() == 0 {
        return Err(ConfigError::InvalidServiceLabel);
    }
    if v[0] == '.' {
        return Err(ConfigError::DottedServiceLabel(label.clone()));
    }
    let mut i: usize = 0;
    assert(v@.skip(0) == v@);
    while i < v.len()
        invariant
            i <= v.len(),
            v@ == label@,
            v@.len() > 0,
            v@[0] != '.',
            first_unsafe(v@) == first_unsafe(v@.skip(i as int)),
        decreases v.len() - i,
    {
        assert(v@.skip(i as int)[0] == v@[i as int]);
        assert(v@.skip(i as int).skip(1) == v@.skip(i + 1));
        if !is_name_letter_exec(v[i]) {
            return Err(ConfigError::UnsafeServiceLabel { label: label.clone(), character: v[i] });
        }
        i = i + 1;
    }
    assert(v@.skip(i as int).len() == 0);
    Ok(())
}

/// Checks the `telemetry` section.
pub fn validate_telemetry_config(t: &TelemetryConfig) -> (r: Result<(), ConfigError>)
    ensures
        outcome(telemetry_fault(*t), r),
{
    if t.service_name.as_str().is_empty() {
        return Err(ConfigError::InvalidServiceName);
    }
    let level = chars_of(&t.log_level);
    proof {
        reveal_strlit("trace");
        reveal_strlit("debug");
        reveal_strlit("info");
        reveal_strlit("warn");
        reveal_strlit("error");
    }
    let known = is_literal(&level, "trace") || is_literal(&level, "debug") || is_literal(
        &level,
        "info",
    ) || is_literal(&level, "warn") || is_literal(&level, "error");
    proof {
        let levels = valid_log_levels();
        if levels.contains(t.log_level@) {
            let i = choose|i: int| 0 <= i < levels.len() && levels[i] == t.log_level@;
            assert(known);
        }
        if known {
            if level@ == "trace"@ {
                assert(levels[0] == t.log_level@);
            } else if level@ == "debug"@ {
                assert(levels[1] == t.log_level@);
            } else if level@ == "info"@ {
                assert(levels[2] == t.log_level@);
            } else if level@ == "warn"@ {
                assert(levels[3] == t.log_level@);
            } else {
                assert(levels[4] == t.log_level@);
            }
        }
    }
    if !known {
        return Err(ConfigError::InvalidLogLevel(t.log_level.clone()));
    }
    let format = chars_of(&t.log_format);
    if !is_literal(&format, LOG_FORMAT_JSON) && !is_literal(&format, LOG_FORMAT_PRETTY) {
        return Err(ConfigError::InvalidLogFormat(t.log_format.clone()));
    }
    Ok(())
}


// ---------------------------------------------------------------------------
// A loaded configuration.
// ---------------------------------------------------------------------------

/// A configuration that was read, parsed and checked, with the text it came from.
#[derive(Clone, Debug)]
pub struct LoadedConfig {
    pub source: String,
    pub config: AppConfig,
}

/// Why a configuration could not be loaded.
#[derive(Debug)]
pub enum AdapterError {
    Config(crate::loader::ConfigLoadError),
    Parse(ConfigError),
}

/// Accepts a parsed configuration when it breaks no rule, keeping its source.
pub fn accept_config(source: String, config: AppConfig) -> (r: Result<LoadedConfig, AdapterError>)
    ensures
        config_fault(config) is None <==> r is Ok,
        r matches Ok(loaded) ==> loaded.source == source && loaded.config == config,
        r matches Err(e) ==> e matches AdapterError::Parse(c) && config_fault(config) == Some(
            c.fault(),
        ),
{
    match validate_config(&config) {
        Ok(()) => Ok(LoadedConfig { source, config }),
        Err(e) => Err(AdapterError::Parse(e)),
    }
}

/// What `pm3 config check` says of a configuration file that loaded.
pub fn config_ok_report(path: &str) -> (r: String)
    ensures
        r@ == "Config OK: "@ + path@,
{
    let mut out = crate::text::chars_of("Config OK: ");
    crate::text::push_str(&mut out, path);
    crate::text::string_of(&out)
}

/// What `pm3 config check` answers for the file at `path`, given what
/// loading it gave: the report exactly when loading succeeded, else the
/// error of loading, unchanged.
pub fn config_check_outcome(path: &str, loaded: Result<AppConfig, AdapterError>) -> (r: Result<
    String,
    AdapterError,
>)
    ensures
        r is Ok <==> loaded is Ok,
        r matches Ok(report) ==> report@ == "Config OK: "@ + path@,
        loaded matches Err(e) ==> r == Err::<String, AdapterError>(e),
{
    match loaded {
        Ok(_) => Ok(config_ok_report(path)),
        Err(e) => Err(e),
    }
}

} // verus!
