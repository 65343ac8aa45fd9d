use vstd::prelude::*;

use crate::config::{Pm3Config, RestartConfig};
use crate::loader::ConfigLoadError;
use crate::domain::{
    parse_unsigned, parse_unsigned_exec, read_scope_of, sandbox_mode_of, ReadScope, SandboxMode,
    SpecError,
};
use crate::env_file::EnvFileError;
use crate::path::{join, join_path};
use crate::program::program_candidates;
use crate::text::{chars_of, clone_opt_string, clone_strings, rsplit_once_char, rsplit_once_char_exec, same_chars, string_of};

verus! {

/// A file that declares several apps.
#[derive(Clone, Debug)]
pub struct AppsFile {
    pub apps: Vec<AppEntry>,
}

/// The declaration of one app, as its service file states it.
#[derive(Clone, Debug)]
pub struct AppEntry {
    pub name: String,
    pub script: String,
    pub cwd: Option<String>,
    pub args: Vec<String>,
    /// Environment values written into the declaration, which pm3 refuses.
    pub rejected_env: Option<Vec<(String, String)>>,
    pub depends_on: Vec<String>,
    pub autorestart: Option<bool>,
    pub min_uptime_ms: Option<u64>,
    pub max_restarts: Option<u32>,
    pub restart_delay_ms: Option<u64>,
    pub max_restart_delay_ms: Option<u64>,
    pub listen_timeout_ms: Option<u64>,
    pub ready_probe: Option<ReadyProbeEntry>,
    pub schedule: Option<String>,
    pub max_memory: Option<String>,
    pub stop_exit_codes: Vec<i32>,
    pub sandbox: Option<SandboxEntry>,
}

/// The sandbox an app declares, each part optional.
#[derive(Clone, Debug)]
pub struct SandboxEntry {
    pub mode: Option<String>,
    pub read: Option<String>,
    pub network: Option<bool>,
    pub writable_roots: Option<Vec<String>>,
    pub readable_roots: Option<Vec<String>>,
}

/// The readiness check an app declares.
#[derive(Clone, Debug)]
pub struct ReadyProbeEntry {
    /// The command to run (`exec` in a service file).
    pub command: Option<Vec<String>>,
    pub tcp: Option<String>,
}

/// How pm3 tells that a started service is ready.
#[derive(Debug)]
pub enum ReadyProbe {
    Exec { command: Vec<String> },
    Tcp { host: String, port: u16 },
}

/// What a service may touch on the host.
#[derive(Debug)]
pub struct SandboxPolicy {
    pub mode: SandboxMode,
    pub read: ReadScope,
    pub network: bool,
    pub writable_roots: Vec<String>,
    pub readable_roots: Vec<String>,
    pub derived_readable_roots: Vec<String>,
    pub derived_roots: Vec<String>,
    pub unreadable_roots: Vec<String>,
}

/// What every app starts from before its own declaration applies.
pub struct SpecDefaults<'d> {
    pub restart: RestartConfig,
    pub sandbox_mode: SandboxMode,
    pub sandbox_read: ReadScope,
    pub sandbox_network: bool,
    pub forbidden_writable_roots: &'d Vec<String>,
    pub home_dir: &'d str,
    pub cfg_dir: &'d str,
    pub search_path: &'d str,
    pub logs_dir: &'d str,
    pub tmp_dir: Option<&'d str>,
}

/// Why a service file or its declaration was refused.
#[derive(Debug)]
pub enum AppsFileError {
    Io { path: String, reason: String },
    Parse(String),
    NoApps,
    DuplicateName(String),
    EnvInYaml { app: String },
    MissingApp(String),
    ProgramNotFound { app: String, program: String },
    InvalidSandboxMode { scope: String, mode: String },
    InvalidSandboxRead { scope: String, read: String },
    InvalidMemoryLimit { app: String, limit: String },
    InvalidReadyProbe { app: String, reason: String },
    EnvFile(EnvFileError),
    Substitute(ConfigLoadError),
    Spec(SpecError),
    EncFile(crate::enc_file::EncFileError),
}

pub const DEFAULTS_SCOPE: &'static str = "pm3.sandbox";

// ---------------------------------------------------------------------------
// The names an apps file declares.
// ---------------------------------------------------------------------------

/// The entry at `i` repeats no earlier name and carries no environment.
pub open spec fn entry_acceptable(apps: Seq<AppEntry>, i: int) -> bool {
    &&& !repeats_earlier(apps, i)
    &&& apps[i].rejected_env is None
}

pub open spec fn repeats_earlier(apps: Seq<AppEntry>, i: int) -> bool {
    exists|j: int| 0 <= j < i && (#[trigger] apps[j]).name@ == apps[i].name@
}

/// Checks that an apps file declares apps, each under its own name, and
/// none with environment values in it.
pub fn check_declared_names(apps: &AppsFile) -> (r: Result<(), AppsFileError>)
    ensures
        apps.apps.len() == 0 ==> r matches Err(AppsFileError::NoApps),
        r is Ok <==> apps.apps.len() > 0 && forall|i: int|
            0 <= i < apps.apps.len() ==> entry_acceptable(apps.apps@, i),
        r matches Err(AppsFileError::DuplicateName(name)) ==> exists|i: int|
            0 <= i < apps.apps.len() && (forall|j: int| 0 <= j < i ==> entry_acceptable(apps.apps@, j))
                && repeats_earlier(apps.apps@, i) && name@ == apps.apps@[i].name@,
        r matches Err(AppsFileError::EnvInYaml { app }) ==> exists|i: int|
            0 <= i < apps.apps.len() && (forall|j: int| 0 <= j < i ==> entry_acceptable(apps.apps@, j))
                && !repeats_earlier(apps.apps@, i) && apps.apps@[i].rejected_env is Some && app@
                == apps.apps@[i].name@,
        r is Err ==> (r matches Err(AppsFileError::NoApps) || r matches Err(
            AppsFileError::DuplicateName(_),
        ) || r matches Err(AppsFileError::EnvInYaml { .. })),
{
    if apps.apps.len() == 0 {
        return Err(AppsFileError::NoApps);
    }
    let ghost all = apps.apps@;
    let mut seen: Vec<Vec<char>> = Vec::new();
    let mut i: usize = 0;
    while i < apps.apps.len()
        invariant
            i <= apps.apps.len(),
            all == apps.apps@,
            seen@.len() == i,
            forall|k: int| 0 <= k < i ==> (#[trigger] seen@[k])@ == all[k].name@,
            forall|k: int| 0 <= k < i ==> entry_acceptable(all, k),
        decreases apps.apps.len() - i,
    {
        let entry = &apps.apps[i];
        let name = chars_of(&entry.name);
        let mut j: usize = 0;
        while j < seen.len()
            invariant
                j <= seen.len() == i,
                i < all.len(),
                all == apps.apps@,
                forall|k: int| 0 <= k < i ==> entry_acceptable(all, k),
                name@ == all[i as int].name@,
                *entry == all[i as int],
                forall|k: int| 0 <= k < i ==> (#[trigger] seen@[k])@ == all[k].name@,
                forall|k: int| 0 <= k < j ==> all[k].name@ != all[i as int].name@,
            decreases seen.len() - j,
        {
            if same_chars(&seen[j], &name) {
                assert(repeats_earlier(all, i as int)) by {
                    assert(all[j as int].name@ == all[i as int].name@);
                }
                assert(!entry_acceptable(all, i as int));
                let shown = entry.name.clone();
                assert(0 <= i < apps.apps.len());
                assert(forall|k: int| 0 <= k < i ==> entry_acceptable(apps.apps@, k));
                assert(repeats_earlier(apps.apps@, i as int));
                assert(shown@ == apps.apps@[i as int].name@);
                return Err(AppsFileError::DuplicateName(shown));
            }
            j = j + 1;
        }
        assert(!repeats_earlier(all, i as int));
        if entry.rejected_env.is_some() {
            assert(!entry_acceptable(all, i as int));
            return Err(AppsFileError::EnvInYaml { app: entry.name.clone() });
        }
        let ghost nv = name@;
        seen.push(name);
        assert(seen@[i as int]@ == nv);
        i = i + 1;
    }
    Ok(())
}

/// Refuses a declaration that carries environment values.
pub fn reject_env(entry: &AppEntry) -> (r: Result<(), AppsFileError>)
    ensures
        r is Ok <==> entry.rejected_env is None,
        r matches Err(e) ==> e matches AppsFileError::EnvInYaml { app } && app@ == entry.name@,
{
    if entry.rejected_env.is_some() {
        return Err(AppsFileError::EnvInYaml { app: entry.name.clone() });
    }
    Ok(())
}

// ---------------------------------------------------------------------------
// Readiness probes.
// ---------------------------------------------------------------------------

/// What a `host:port` endpoint declares: the text before the last `:` and
/// the port after it, a number of 1-65535.
pub open spec fn tcp_endpoint(endpoint: Seq<char>) -> Result<(Seq<char>, u16), Seq<char>> {
    match rsplit_once_char(endpoint, ':') {
        None => Err("use host:port"@),
        Some((host, port)) => match parse_unsigned(port, 65535) {
            Some(p) if p >= 1 => Ok((host, p as u16)),
            _ => Err("the port must be a number of 1-65535"@),
        },
    }
}

/// Reads a `host:port` readiness endpoint.
pub fn parse_tcp_endpoint(app: &str, endpoint: &str) -> (r: Result<ReadyProbe, AppsFileError>)
    ensures
        match tcp_endpoint(endpoint@) {
            Ok((host, port)) => r matches Ok(ReadyProbe::Tcp { host: h, port: p }) && h@ == host
                && p == port,
            Err(reason) => r matches Err(AppsFileError::InvalidReadyProbe { app: a, reason: why })
                && a@ == app@ && why@ == reason,
        },
{
    let v = chars_of(endpoint);
    let Some((host, port)) = rsplit_once_char_exec(&v, ':') else {
        return Err(invalid_ready_probe(app, "use host:port"));
    };
    let number = match parse_unsigned_exec(&port, 65535) {
        Some(number) if number >= 1 => number,
        _ => {
            return Err(invalid_ready_probe(app, "the port must be a number of 1-65535"));
        },
    };
    Ok(ReadyProbe::Tcp { host: string_of(&host), port: number as u16 })
}

fn invalid_ready_probe(app: &str, reason: &str) -> (r: AppsFileError)
    ensures
        r matches AppsFileError::InvalidReadyProbe { app: a, reason: why } && a@ == app@ && why@
            == reason@,
{
    AppsFileError::InvalidReadyProbe { app: app.to_string(), reason: reason.to_string() }
}

/// What resolving the readiness probe of `entry` gives.
pub open spec fn probe_fits(entry: AppEntry, r: Result<Option<ReadyProbe>, AppsFileError>) -> bool {
    match entry.ready_probe {
        None => r matches Ok(None),
        Some(section) => match (section.command, section.tcp) {
            (Some(command), None) => r matches Ok(Some(ReadyProbe::Exec { command: c }))
                && c.deep_view() == command.deep_view(),
            (None, Some(endpoint)) => match tcp_endpoint(endpoint@) {
                Ok((host, port)) => r matches Ok(Some(ReadyProbe::Tcp { host: h, port: p })) && h@
                    == host && p == port,
                Err(reason) => r matches Err(AppsFileError::InvalidReadyProbe { app, reason: why })
                    && app@ == entry.name@ && why@ == reason,
            },
            (Some(_), Some(_)) => r matches Err(AppsFileError::InvalidReadyProbe { app, reason })
                && app@ == entry.name@ && reason@ == "use exactly one of exec or tcp"@,
            (None, None) => r matches Err(AppsFileError::InvalidReadyProbe { app, reason })
                && app@ == entry.name@ && reason@ == "declare exec or tcp"@,
        },
    }
}

/// Turns a declared readiness probe into the probe pm3 runs: exactly one
/// of `exec` and `tcp` must be declared.
pub fn resolve_ready_probe(entry: &AppEntry) -> (r: Result<Option<ReadyProbe>, AppsFileError>)
    ensures
        probe_fits(*entry, r),
{
    let Some(section) = &entry.ready_probe else {
        return Ok(None);
    };
    match (&section.command, &section.tcp) {
        (Some(command), None) => Ok(Some(ReadyProbe::Exec { command: clone_strings(command) })),
        (None, Some(endpoint)) => {
            let probe = parse_tcp_endpoint(&entry.name, endpoint)?;
            Ok(Some(probe))
        },
        (Some(_), Some(_)) => Err(invalid_ready_probe(&entry.name, "use exactly one of exec or tcp")),
        (None, None) => Err(invalid_ready_probe(&entry.name, "declare exec or tcp")),
    }
}

// ---------------------------------------------------------------------------
// Roots.
// ---------------------------------------------------------------------------

/// `s` without repeats, each kept where it first appears.
pub open spec fn dedup(s: Seq<Seq<char>>) -> Seq<Seq<char>>
    decreases s.len(),
{
    if s.len() == 0 {
        Seq::empty()
    } else {
        let d = dedup(s.drop_last());
        if d.contains(s.last()) {
            d
        } else {
            d.push(s.last())
        }
    }
}

/// Drops the repeated roots, keeping the first of each.
pub fn dedup_roots(candidates: Vec<String>) -> (r: Vec<String>)
    ensures
        r.deep_view() == dedup(candidates.deep_view()),
{
    let ghost all = candidates.deep_view();
    let mut roots: Vec<String> = Vec::new();
    let mut i: usize = 0;
    while i < candidates.len()
        invariant
            i <= candidates.len(),
            all == candidates.deep_view(),
            roots.deep_view() == dedup(all.take(i as int)),
        decreases candidates.len() - i,
    {
        let candidate = chars_of(&candidates[i]);
        let ghost prefix = all.take(i as int);
        let ghost next = all.take(i + 1);
        assert(next.drop_last() == prefix);
        assert(next.last() == candidate@);
        let mut found = false;
        let mut j: usize = 0;
        while j < roots.len()
            invariant
                j <= roots.len(),
                found ==> roots.deep_view().contains(candidate@),
                !found ==> forall|k: int| 0 <= k < j ==> roots.deep_view()[k] != candidate@,
            decreases roots.len() - j,
        {
            let r = chars_of(&roots[j]);
            if same_chars(&r, &candidate) {
                assert(roots.deep_view()[j as int] == candidate@);
                found = true;
            }
            j = j + 1;
        }
        if !found {
            let ghost before = roots.deep_view();
            roots.push(candidates[i].clone());
            assert(roots.deep_view() =~= before.push(candidate@));
        }
        i = i + 1;
    }
    assert(all.take(candidates.len() as int) == all);
    roots
}

/// The candidates that are not empty.
pub open spec fn nonempty(s: Seq<Seq<char>>) -> Seq<Seq<char>> {
    s.filter(|x: Seq<char>| x.len() > 0)
}

/// The directories pm3 keeps for itself, which no service may read.
pub open spec fn owned_roots(home_dir: Seq<char>, cfg_dir: Seq<char>) -> Seq<Seq<char>> {
    dedup(nonempty(seq![home_dir, cfg_dir]))
}

/// The directories a workspace-writing service may write by default: its
/// working directory, the logs and the temporary directory.
pub open spec fn writable_defaults(
    mode: SandboxMode,
    cwd: Seq<char>,
    logs_dir: Seq<char>,
    tmp_dir: Option<Seq<char>>,
) -> Seq<Seq<char>> {
    if mode != SandboxMode::WorkspaceWrite {
        Seq::empty()
    } else {
        let listed = match tmp_dir {
            Some(t) => seq![cwd, logs_dir, t],
            None => seq![cwd, logs_dir],
        };
        dedup(nonempty(listed))
    }
}

/// Keeps the non-empty strings of `items`, in order.
fn keep_nonempty(items: Vec<String>) -> (r: Vec<String>)
    ensures
        r.deep_view() == nonempty(items.deep_view()),
{
    let ghost all = items.deep_view();
    let mut r: Vec<String> = Vec::new();
    let mut i: usize = 0;
    while i < items.len()
        invariant
            i <= items.len(),
            all == items.deep_view(),
            r.deep_view() == nonempty(all.take(i as int)),
        decreases items.len() - i,
    {
        let ghost next = all.take(i + 1);
        assert(next.drop_last() == all.take(i as int));
        reveal_with_fuel(Seq::filter, 1);
        if !items[i].as_str().is_empty() {
            let ghost before = r.deep_view();
            r.push(items[i].clone());
            assert(r.deep_view() =~= before.push(all[i as int]));
        }
        i = i + 1;
    }
    assert(all.take(items.len() as int) == all);
    r
}

/// The directories pm3 keeps for itself.
pub fn pm3_owned_roots(defaults: &SpecDefaults) -> (r: Vec<String>)
    ensures
        r.deep_view() == owned_roots(defaults.home_dir@, defaults.cfg_dir@),
{
    let mut listed: Vec<String> = Vec::new();
    listed.push(defaults.home_dir.to_string());
    listed.push(defaults.cfg_dir.to_string());
    assert(listed.deep_view() =~= seq![defaults.home_dir@, defaults.cfg_dir@]);
    dedup_roots(keep_nonempty(listed))
}

/// The directories a service may write without declaring them.
pub fn default_writable_roots(defaults: &SpecDefaults, mode: SandboxMode, cwd: &str) -> (r: Vec<
    String,
>)
    ensures
        r.deep_view() == writable_defaults(
            mode,
            cwd@,
            defaults.logs_dir@,
            match defaults.tmp_dir {
                Some(t) => Some(t@),
                None => None,
            },
        ),
{
    if mode != SandboxMode::WorkspaceWrite {
        return Vec::new();
    }
    let mut listed: Vec<String> = Vec::new();
    listed.push(cwd.to_string());
    listed.push(defaults.logs_dir.to_string());
    if let Some(t) = defaults.tmp_dir {
        listed.push(t.to_string());
        assert(listed.deep_view() =~= seq![cwd@, defaults.logs_dir@, t@]);
    } else {
        assert(listed.deep_view() =~= seq![cwd@, defaults.logs_dir@]);
    }
    dedup_roots(keep_nonempty(listed))
}

/// Where an app works: its declared directory, or one named after it under
/// pm3's home.
pub fn working_directory(defaults: &SpecDefaults, entry: &AppEntry) -> (r: String)
    ensures
        r@ == match entry.cwd {
            Some(c) => c@,
            None => join_path(defaults.home_dir@, entry.name@),
        },
{
    match &entry.cwd {
        Some(c) => c.clone(),
        None => join(defaults.home_dir, &entry.name),
    }
}

// ---------------------------------------------------------------------------
// The sandbox of an app.
// ---------------------------------------------------------------------------

/// The scope named in a refusal of an app's sandbox.
pub open spec fn app_scope(name: Seq<char>) -> Seq<char> {
    "app '"@ + name + "'"@
}

fn app_scope_exec(name: &String) -> (r: String)
    ensures
        r@ == app_scope(name@),
{
    let mut out: Vec<char> = Vec::new();
    crate::text::push_str(&mut out, "app '");
    crate::text::push_str(&mut out, name.as_str());
    crate::text::push_str(&mut out, "'");
    string_of(&out)
}

/// Reads a sandbox mode named for `scope`.
pub fn parse_mode(scope: &str, raw: &str) -> (r: Result<SandboxMode, AppsFileError>)
    ensures
        match sandbox_mode_of(raw@) {
            Some(m) => r == Ok::<SandboxMode, AppsFileError>(m),
            None => r matches Err(AppsFileError::InvalidSandboxMode { scope: s, mode }) && s@
                == scope@ && mode@ == raw@,
        },
{
    match SandboxMode::parse(raw) {
        Some(m) => Ok(m),
        None => Err(AppsFileError::InvalidSandboxMode { scope: scope.to_string(), mode: raw.to_string() }),
    }
}

/// Reads a read scope named for `scope`.
pub fn parse_read(scope: &str, raw: &str) -> (r: Result<ReadScope, AppsFileError>)
    ensures
        match read_scope_of(raw@) {
            Some(m) => r == Ok::<ReadScope, AppsFileError>(m),
            None => r matches Err(AppsFileError::InvalidSandboxRead { scope: s, read }) && s@
                == scope@ && read@ == raw@,
        },
{
    match ReadScope::parse(raw) {
        Some(m) => Ok(m),
        None => Err(AppsFileError::InvalidSandboxRead { scope: scope.to_string(), read: raw.to_string() }),
    }
}

/// The mode an app's sandbox has: the declared one, or the default.
pub open spec fn declared_mode(defaults_mode: SandboxMode, entry: AppEntry) -> Option<SandboxMode> {
    match entry.sandbox {
        Some(section) => match section.mode {
            Some(raw) => sandbox_mode_of(raw@),
            None => Some(defaults_mode),
        },
        None => Some(defaults_mode),
    }
}

/// The read scope an app's sandbox has: the declared one, or the default.
pub open spec fn declared_read(defaults_read: ReadScope, entry: AppEntry) -> Option<ReadScope> {
    match entry.sandbox {
        Some(section) => match section.read {
            Some(raw) => read_scope_of(raw@),
            None => Some(defaults_read),
        },
        None => Some(defaults_read),
    }
}

pub open spec fn declared_roots(roots: Option<Vec<String>>) -> Seq<Seq<char>> {
    match roots {
        Some(r) => r.deep_view(),
        None => Seq::empty(),
    }
}

/// What resolving the sandbox of `entry`, working in `cwd`, gives.
pub open spec fn sandbox_fits(
    defaults: SpecDefaults,
    entry: AppEntry,
    cwd: Seq<char>,
    r: Result<SandboxPolicy, AppsFileError>,
) -> bool {
        match (declared_mode(defaults.sandbox_mode, entry), declared_read(defaults.sandbox_read, entry)) {
            (Some(mode), Some(read)) => r matches Ok(p) && {
                &&& p.mode == mode
                &&& p.read == read
                &&& p.network == match entry.sandbox {
                    Some(section) => match section.network {
                        Some(n) => n,
                        None => defaults.sandbox_network,
                    },
                    None => defaults.sandbox_network,
                }
                &&& p.writable_roots.deep_view() == match entry.sandbox {
                    Some(section) => declared_roots(section.writable_roots),
                    None => Seq::empty(),
                }
                &&& p.readable_roots.deep_view() == match entry.sandbox {
                    Some(section) => declared_roots(section.readable_roots),
                    None => Seq::empty(),
                }
                &&& p.derived_readable_roots@.len() == 0
                &&& p.derived_roots.deep_view() == writable_defaults(
                    mode,
                    cwd,
                    defaults.logs_dir@,
                    match defaults.tmp_dir {
                        Some(t) => Some(t@),
                        None => None,
                    },
                )
                &&& p.unreadable_roots.deep_view() == owned_roots(defaults.home_dir@, defaults.cfg_dir@)
            },
            (None, _) => {
                &&& r matches Err(AppsFileError::InvalidSandboxMode { scope, mode })
                &&& scope@ == app_scope(entry.name@)
                &&& entry.sandbox matches Some(section)
                &&& section.mode matches Some(raw)
                &&& mode@ == raw@
            },
            (Some(_), None) => {
                &&& r matches Err(AppsFileError::InvalidSandboxRead { scope, read })
                &&& scope@ == app_scope(entry.name@)
                &&& entry.sandbox matches Some(section)
                &&& section.read matches Some(raw)
                &&& read@ == raw@
            },
        }
}

/// The sandbox an app runs in: its own declaration over the defaults, the
/// default writable directories, and pm3's own directories kept out of reach.
pub fn resolve_sandbox(defaults: &SpecDefaults, entry: &AppEntry, cwd: &str) -> (r: Result<
    SandboxPolicy,
    AppsFileError,
>)
    ensures
        sandbox_fits(*defaults, *entry, cwd@, r),
{
    let mut mode = defaults.sandbox_mode;
    let mut read = defaults.sandbox_read;
    let mut network = defaults.sandbox_network;
    let mut writable_roots: Vec<String> = Vec::new();
    let mut readable_roots: Vec<String> = Vec::new();
    if let Some(section) = &entry.sandbox {
        if let Some(raw) = &section.mode {
            let scope = app_scope_exec(&entry.name);
            mode = parse_mode(&scope, raw)?;
        }
        if let Some(raw) = &section.read {
            let scope = app_scope_exec(&entry.name);
            read = parse_read(&scope, raw)?;
        }
        if let Some(n) = section.network {
            network = n;
        }
        if let Some(roots) = &section.writable_roots {
            writable_roots = clone_strings(roots);
        }
        if let Some(roots) = &section.readable_roots {
            readable_roots = clone_strings(roots);
        }
    }
    let derived_roots = default_writable_roots(defaults, mode, cwd);
    let unreadable_roots = pm3_owned_roots(defaults);
    let policy = SandboxPolicy {
        mode,
        read,
        network,
        writable_roots,
        readable_roots,
        derived_readable_roots: Vec::new(),
        derived_roots,
        unreadable_roots,
    };
    assert(declared_mode(defaults.sandbox_mode, *entry) == Some(mode));
    assert(declared_read(defaults.sandbox_read, *entry) == Some(read));
    assert(policy.network == match entry.sandbox {
        Some(section) => match section.network {
            Some(n) => n,
            None => defaults.sandbox_network,
        },
        None => defaults.sandbox_network,
    });
    assert(policy.writable_roots.deep_view() == match entry.sandbox {
        Some(section) => declared_roots(section.writable_roots),
        None => Seq::empty(),
    });
    assert(policy.readable_roots.deep_view() == match entry.sandbox {
        Some(section) => declared_roots(section.readable_roots),
        None => Seq::empty(),
    });
    assert(policy.derived_readable_roots@.len() == 0);
    assert(policy.derived_roots.deep_view() == writable_defaults(
        mode,
        cwd@,
        defaults.logs_dir@,
        match defaults.tmp_dir {
            Some(t) => Some(t@),
            None => None,
        },
    ));
    assert(policy.unreadable_roots.deep_view() == owned_roots(defaults.home_dir@, defaults.cfg_dir@));
    Ok(policy)
}

} // verus!

verus! {

// ---------------------------------------------------------------------------
// Declarations as plain values.
// ---------------------------------------------------------------------------

#[verifier::ext_equal]
pub struct SandboxEntryView {
    pub mode: Option<Seq<char>>,
    pub read: Option<Seq<char>>,
    pub network: Option<bool>,
    pub writable_roots: Option<Seq<Seq<char>>>,
    pub readable_roots: Option<Seq<Seq<char>>>,
}

#[verifier::ext_equal]
pub struct ReadyProbeEntryView {
    pub command: Option<Seq<Seq<char>>>,
    pub tcp: Option<Seq<char>>,
}

#[verifier::ext_equal]
pub struct AppEntryView {
    pub name: Seq<char>,
    pub script: Seq<char>,
    pub cwd: Option<Seq<char>>,
    pub args: Seq<Seq<char>>,
    pub rejected_env: Option<Seq<(Seq<char>, Seq<char>)>>,
    pub depends_on: Seq<Seq<char>>,
    pub autorestart: Option<bool>,
    pub min_uptime_ms: Option<u64>,
    pub max_restarts: Option<u32>,
    pub restart_delay_ms: Option<u64>,
    pub max_restart_delay_ms: Option<u64>,
    pub listen_timeout_ms: Option<u64>,
    pub ready_probe: Option<ReadyProbeEntryView>,
    pub schedule: Option<Seq<char>>,
    pub max_memory: Option<Seq<char>>,
    pub stop_exit_codes: Seq<i32>,
    pub sandbox: Option<SandboxEntryView>,
}

impl View for SandboxEntry {
    type V = SandboxEntryView;

    open spec fn view(&self) -> SandboxEntryView {
        SandboxEntryView {
            mode: self.mode.deep_view(),
            read: self.read.deep_view(),
            network: self.network,
            writable_roots: self.writable_roots.deep_view(),
            readable_roots: self.readable_roots.deep_view(),
        }
    }
}

impl View for ReadyProbeEntry {
    type V = ReadyProbeEntryView;

    open spec fn view(&self) -> ReadyProbeEntryView {
        ReadyProbeEntryView { command: self.command.deep_view(), tcp: self.tcp.deep_view() }
    }
}

pub open spec fn opt_sandbox_view(s: Option<SandboxEntry>) -> Option<SandboxEntryView> {
    match s {
        Some(v) => Some(v@),
        None => None,
    }
}

pub open spec fn opt_probe_view(p: Option<ReadyProbeEntry>) -> Option<ReadyProbeEntryView> {
    match p {
        Some(v) => Some(v@),
        None => None,
    }
}

impl View for AppEntry {
    type V = AppEntryView;

    open spec fn view(&self) -> AppEntryView {
        AppEntryView {
            name: self.name@,
            script: self.script@,
            cwd: self.cwd.deep_view(),
            args: self.args.deep_view(),
            rejected_env: self.rejected_env.deep_view(),
            depends_on: self.depends_on.deep_view(),
            autorestart: self.autorestart,
            min_uptime_ms: self.min_uptime_ms,
            max_restarts: self.max_restarts,
            restart_delay_ms: self.restart_delay_ms,
            max_restart_delay_ms: self.max_restart_delay_ms,
            listen_timeout_ms: self.listen_timeout_ms,
            ready_probe: opt_probe_view(self.ready_probe),
            schedule: self.schedule.deep_view(),
            max_memory: self.max_memory.deep_view(),
            stop_exit_codes: self.stop_exit_codes@,
            sandbox: opt_sandbox_view(self.sandbox),
        }
    }
}

/// A copy of a list of numbers.
pub fn clone_codes(v: &Vec<i32>) -> (r: Vec<i32>)
    ensures
        r@ == v@,
{
    let mut r: Vec<i32> = Vec::new();
    let mut i: usize = 0;
    while i < v.len()
        invariant
            i <= v.len(),
            r@ == v@.take(i as int),
        decreases v.len() - i,
    {
        r.push(v[i]);
        i = i + 1;
        assert(r@ =~= v@.take(i as int));
    }
    assert(v@.take(v.len() as int) == v@);
    r
}

/// A copy of a list of pairs of strings.
pub fn clone_pairs(v: &Vec<(String, String)>) -> (r: Vec<(String, String)>)
    ensures
        r.deep_view() == v.deep_view(),
{
    let mut r: Vec<(String, String)> = Vec::new();
    let mut i: usize = 0;
    while i < v.len()
        invariant
            i <= v.len(),
            r.deep_view() == v.deep_view().take(i as int),
        decreases v.len() - i,
    {
        let pair = (v[i].0.clone(), v[i].1.clone());
        let ghost pv = (pair.0@, pair.1@);
        let ghost before = r.deep_view();
        r.push(pair);
        assert(r.deep_view() =~= before.push(pv));
        i = i + 1;
        assert(v.deep_view().take(i as int) =~= v.deep_view().take((i - 1) as int).push(pv));
    }
    assert(v.deep_view().take(v.len() as int) =~= v.deep_view());
    r
}

pub fn clone_opt_strings(o: &Option<Vec<String>>) -> (r: Option<Vec<String>>)
    ensures
        r.deep_view() == o.deep_view(),
{
    match o {
        Some(v) => Some(clone_strings(v)),
        None => None,
    }
}

impl SandboxEntry {
    pub fn copy(&self) -> (r: SandboxEntry)
        ensures
            r@ == self@,
    {
        SandboxEntry {
            mode: crate::text::clone_opt_string(&self.mode),
            read: crate::text::clone_opt_string(&self.read),
            network: self.network,
            writable_roots: clone_opt_strings(&self.writable_roots),
            readable_roots: clone_opt_strings(&self.readable_roots),
        }
    }
}

impl ReadyProbeEntry {
    pub fn copy(&self) -> (r: ReadyProbeEntry)
        ensures
            r@ == self@,
    {
        ReadyProbeEntry {
            command: clone_opt_strings(&self.command),
            tcp: crate::text::clone_opt_string(&self.tcp),
        }
    }
}

impl AppEntry {
    pub fn copy(&self) -> (r: AppEntry)
        ensures
            r@ == self@,
    {
        AppEntry {
            name: self.name.clone(),
            script: self.script.clone(),
            cwd: crate::text::clone_opt_string(&self.cwd),
            args: clone_strings(&self.args),
            rejected_env: match &self.rejected_env {
                Some(v) => Some(clone_pairs(v)),
                None => None,
            },
            depends_on: clone_strings(&self.depends_on),
            autorestart: self.autorestart,
            min_uptime_ms: self.min_uptime_ms,
            max_restarts: self.max_restarts,
            restart_delay_ms: self.restart_delay_ms,
            max_restart_delay_ms: self.max_restart_delay_ms,
            listen_timeout_ms: self.listen_timeout_ms,
            ready_probe: match &self.ready_probe {
                Some(p) => Some(p.copy()),
                None => None,
            },
            schedule: crate::text::clone_opt_string(&self.schedule),
            max_memory: crate::text::clone_opt_string(&self.max_memory),
            stop_exit_codes: clone_codes(&self.stop_exit_codes),
            sandbox: match &self.sandbox {
                Some(s) => Some(s.copy()),
                None => None,
            },
        }
    }
}


impl<'d> SpecDefaults<'d> {
    /// The defaults every app of a configuration starts from.
    pub fn from_config(
        pm3: &'d Pm3Config,
        home_dir: &'d str,
        cfg_dir: &'d str,
        logs_dir: &'d str,
        tmp_dir: Option<&'d str>,
    ) -> (r: Result<SpecDefaults<'d>, AppsFileError>)
        ensures
            sandbox_mode_of(pm3.sandbox.mode@) is None ==> (r matches Err(
                AppsFileError::InvalidSandboxMode { scope, mode },
            ) && scope@ == DEFAULTS_SCOPE@ && mode@ == pm3.sandbox.mode@),
            sandbox_mode_of(pm3.sandbox.mode@) is Some && read_scope_of(pm3.sandbox.read@) is None
                ==> (r matches Err(AppsFileError::InvalidSandboxRead { scope, read }) && scope@
                == DEFAULTS_SCOPE@ && read@ == pm3.sandbox.read@),
            r matches Ok(d) ==> {
                &&& Some(d.sandbox_mode) == sandbox_mode_of(pm3.sandbox.mode@)
                &&& Some(d.sandbox_read) == read_scope_of(pm3.sandbox.read@)
                &&& d.restart == pm3.restart
                &&& d.sandbox_network == pm3.sandbox.network
                &&& d.forbidden_writable_roots == &pm3.sandbox.forbidden_writable_roots
                &&& d.home_dir == home_dir
                &&& d.cfg_dir == cfg_dir
                &&& d.search_path@ == pm3.search_path@
                &&& d.logs_dir == logs_dir
                &&& d.tmp_dir == tmp_dir
            },
            sandbox_mode_of(pm3.sandbox.mode@) is Some && read_scope_of(pm3.sandbox.read@) is Some
                ==> r is Ok,
    {
        let sandbox_mode = parse_mode(DEFAULTS_SCOPE, &pm3.sandbox.mode)?;
        let sandbox_read = parse_read(DEFAULTS_SCOPE, &pm3.sandbox.read)?;
        Ok(
            SpecDefaults {
                restart: pm3.restart,
                sandbox_mode,
                sandbox_read,
                sandbox_network: pm3.sandbox.network,
                forbidden_writable_roots: &pm3.sandbox.forbidden_writable_roots,
                home_dir,
                cfg_dir,
                search_path: pm3.search_path.as_str(),
                logs_dir,
                tmp_dir,
            },
        )
    }
}


// ---------------------------------------------------------------------------
// What pm3 runs for an app.
// ---------------------------------------------------------------------------

/// What pm3 runs for an app, before its environment is added.
#[derive(Debug)]
pub struct AppSpec {
    pub name: String,
    pub script: String,
    pub args: Vec<String>,
    pub cwd: String,
    pub autorestart: bool,
    pub min_uptime_ms: u64,
    pub max_restarts: u32,
    pub restart_delay_ms: u64,
    pub max_restart_delay_ms: u64,
    pub schedule: Option<String>,
    pub depends_on: Vec<String>,
    pub stop_exit_codes: Vec<i32>,
    pub sandbox: SandboxPolicy,
    pub max_memory_kib: Option<u64>,
    pub ready_probe: Option<ReadyProbe>,
    pub listen_timeout_ms: Option<u64>,
}

/// Where an app works, by the spec of `working_directory`.
pub open spec fn work_dir(defaults: SpecDefaults, entry: AppEntry) -> Seq<char> {
    match entry.cwd {
        Some(c) => c@,
        None => join_path(defaults.home_dir@, entry.name@),
    }
}

/// What a resolved app takes over from its declaration and the defaults.
pub open spec fn spec_fits(defaults: SpecDefaults, entry: AppEntry, spec: AppSpec) -> bool {
    &&& spec.name@ == entry.name@
    &&& program_candidates(entry.script@, Some(defaults.search_path@)).contains(spec.script@)
    &&& spec.args.deep_view() == entry.args.deep_view()
    &&& spec.cwd@ == work_dir(defaults, entry)
    &&& spec.autorestart == match entry.autorestart {
        Some(v) => v,
        None => defaults.restart.autorestart,
    }
    &&& spec.min_uptime_ms == match entry.min_uptime_ms {
        Some(v) => v,
        None => defaults.restart.min_uptime_ms,
    }
    &&& spec.max_restarts == match entry.max_restarts {
        Some(v) => v,
        None => defaults.restart.max_restarts,
    }
    &&& spec.restart_delay_ms == match entry.restart_delay_ms {
        Some(v) => v,
        None => defaults.restart.restart_delay_ms,
    }
    &&& spec.max_restart_delay_ms == match entry.max_restart_delay_ms {
        Some(v) => v,
        None => defaults.restart.max_restart_delay_ms,
    }
    &&& spec.schedule.deep_view() == entry.schedule.deep_view()
    &&& spec.depends_on.deep_view() == entry.depends_on.deep_view()
    &&& spec.stop_exit_codes@ == entry.stop_exit_codes@
    &&& spec.listen_timeout_ms == entry.listen_timeout_ms
    &&& sandbox_fits(defaults, entry, work_dir(defaults, entry), Ok(spec.sandbox))
    &&& probe_fits(entry, Ok(spec.ready_probe))
}

/// Whether `read` answered `answer` for a declared memory limit.
pub open spec fn limit_read<F: Fn(&str) -> Option<u64>>(read: F, declared: Seq<char>, answer: Option<
    u64,
>) -> bool {
    exists|p: &str| p@ == declared && #[trigger] read.ensures((p,), answer)
}

fn resolve_memory_limit<F: Fn(&str) -> Option<u64>>(entry: &AppEntry, memory_limit_of: &F) -> (r:
    Result<Option<u64>, AppsFileError>)
    requires
        forall|p: &str| #[trigger] memory_limit_of.requires((p,)),
    ensures
        match entry.max_memory {
            None => r matches Ok(None),
            Some(d) => match r {
                Ok(Some(k)) => limit_read(*memory_limit_of, d@, Some(k)),
                Ok(None) => false,
                Err(e) => e matches AppsFileError::InvalidMemoryLimit { app, limit } && app@
                    == entry.name@ && limit@ == d@ && limit_read(*memory_limit_of, d@, None),
            },
        },
{
    let Some(declared) = &entry.max_memory else {
        return Ok(None);
    };
    let text: &str = declared.as_str();
    match memory_limit_of(text) {
        Some(k) => Ok(Some(k)),
        None => Err(
            AppsFileError::InvalidMemoryLimit { app: entry.name.clone(), limit: declared.clone() },
        ),
    }
}

/// Resolves an app's declaration into what pm3 runs: no environment in the
/// declaration, a program found on the search path, a sandbox, a memory
/// limit read by `memory_limit_of`, and a readiness probe, refused at the
/// first of these that fails. The program is the first candidate on the
/// search path at which the file check found a regular file; what the limit
/// reads as is for the reader to say.
pub fn resolve_entry<F: Fn(&str) -> Option<u64>>(
    defaults: &SpecDefaults,
    entry: &AppEntry,
    memory_limit_of: F,
) -> (r: Result<AppSpec, AppsFileError>)
    requires
        forall|p: &str| #[trigger] memory_limit_of.requires((p,)),
    ensures
        entry.rejected_env is Some <==> r matches Err(AppsFileError::EnvInYaml { .. }),
        entry.rejected_env is None && program_candidates(
            entry.script@,
            Some(defaults.search_path@),
        ).len() == 0 ==> r matches Err(AppsFileError::ProgramNotFound { .. }),
        match r {
            Ok(spec) => {
                &&& spec_fits(*defaults, *entry, spec)
                &&& crate::program::first_file_found(
                    program_candidates(entry.script@, Some(defaults.search_path@)),
                    spec.script@,
                )
                &&& match entry.max_memory {
                    None => spec.max_memory_kib is None,
                    Some(d) => spec.max_memory_kib matches Some(k) && limit_read(
                        memory_limit_of,
                        d@,
                        Some(k),
                    ),
                }
            },
            Err(e) => match e {
                AppsFileError::EnvInYaml { app } => app@ == entry.name@,
                AppsFileError::ProgramNotFound { app, program } => {
                    &&& app@ == entry.name@
                    &&& program@ == entry.script@
                    &&& forall|j: int|
                        0 <= j < program_candidates(entry.script@, Some(defaults.search_path@)).len()
                            ==> crate::program::file_check_answered(
                            #[trigger] program_candidates(
                                entry.script@,
                                Some(defaults.search_path@),
                            )[j],
                            false,
                        )
                },
                AppsFileError::InvalidSandboxMode { .. } => sandbox_fits(
                    *defaults,
                    *entry,
                    work_dir(*defaults, *entry),
                    Err(e),
                ),
                AppsFileError::InvalidSandboxRead { .. } => sandbox_fits(
                    *defaults,
                    *entry,
                    work_dir(*defaults, *entry),
                    Err(e),
                ),
                AppsFileError::InvalidMemoryLimit { app, limit } => {
                    &&& app@ == entry.name@
                    &&& entry.max_memory matches Some(d)
                    &&& limit@ == d@
                    &&& limit_read(memory_limit_of, d@, None)
                },
                AppsFileError::InvalidReadyProbe { .. } => probe_fits(*entry, Err(e)),
                _ => false,
            },
        },
{
    reject_env(entry)?;
    let cwd = working_directory(defaults, entry);
    let script = match crate::program::resolve_program(&entry.script, Some(defaults.search_path)) {
        Some(found) => found,
        None => {
            return Err(
                AppsFileError::ProgramNotFound {
                    app: entry.name.clone(),
                    program: entry.script.clone(),
                },
            );
        },
    };
    let sandbox = resolve_sandbox(defaults, entry, &cwd)?;
    let max_memory_kib = resolve_memory_limit(entry, &memory_limit_of)?;
    let ready_probe = resolve_ready_probe(entry)?;
    Ok(
        AppSpec {
            name: entry.name.clone(),
            script,
            args: clone_strings(&entry.args),
            cwd,
            autorestart: match entry.autorestart {
                Some(v) => v,
                None => defaults.restart.autorestart,
            },
            min_uptime_ms: match entry.min_uptime_ms {
                Some(v) => v,
                None => defaults.restart.min_uptime_ms,
            },
            max_restarts: match entry.max_restarts {
                Some(v) => v,
                None => defaults.restart.max_restarts,
            },
            restart_delay_ms: match entry.restart_delay_ms {
                Some(v) => v,
                None => defaults.restart.restart_delay_ms,
            },
            max_restart_delay_ms: match entry.max_restart_delay_ms {
                Some(v) => v,
                None => defaults.restart.max_restart_delay_ms,
            },
            schedule: clone_opt_string(&entry.schedule),
            depends_on: clone_strings(&entry.depends_on),
            stop_exit_codes: clone_codes(&entry.stop_exit_codes),
            sandbox,
            max_memory_kib,
            ready_probe,
            listen_timeout_ms: entry.listen_timeout_ms,
        },
    )
}

} // verus!
