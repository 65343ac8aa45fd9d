use vstd::prelude::*;
use vstd::string::StringSliceAdditionalSpecFns;

use crate::env_file::opt_view;
use crate::path::{is_absolute, join, join_path};
use crate::text::{chars_of, decimal, push_decimal, push_str, same_chars, slice_of, string_of};

verus! {

pub const SOCKET_FILE: &'static str = "pm3.sock";
pub const PID_FILE: &'static str = "pm3.pid";
pub const LOCK_FILE: &'static str = "pm3.lock";
pub const CONFIG_FILE: &'static str = "config.yaml";
pub const DUMP_FILE: &'static str = "dump.yaml";
pub const DAEMON_LOG_FILE: &'static str = "pm3.log";
pub const LOGS_DIR: &'static str = "logs";
pub const APPS_DIR: &'static str = "apps";
pub const BACKUPS_DIR: &'static str = "install-backups";
pub const DEFAULT_HOME: &'static str = "~/.pm3";
pub const PM3_SUBDIR: &'static str = "pm3";
pub const RUNTIME_SUBDIR: &'static str = "run";
pub const XDG_CONFIG_FALLBACK: &'static str = "~/.config";
pub const XDG_STATE_FALLBACK: &'static str = "~/.local/state";
pub const XDG_DATA_FALLBACK: &'static str = "~/.local/share";
pub const RUNTIME_DIR_ROOT: &'static str = "/run/user";
/// The longest unix socket path the operating system takes, in bytes.
pub const SUN_LEN_LIMIT: usize = 104;

/// The four directories pm3 keeps its files in.
#[derive(Clone, Debug)]
pub struct Pm3Roots {
    pub config: String,
    pub state: String,
    pub runtime: String,
    pub data: String,
}

/// Where each of pm3's files lives.
#[derive(Clone, Debug)]
pub struct Pm3Paths {
    pub root: String,
    pub roots: Pm3Roots,
    pub socket: String,
    pub pid_file: String,
    pub lock_file: String,
    pub config_file: String,
    pub dump_file: String,
    pub logs_dir: String,
    pub daemon_log: String,
    pub apps_dir: String,
    pub backups_dir: String,
}

/// What decides the runtime directory. `exists` tells whether something
/// stands at a path on the host.
pub struct RuntimeSources<'s, F: Fn(&str) -> bool> {
    pub declared: Option<&'s str>,
    pub xdg: Option<&'s str>,
    pub uid: Option<u32>,
    pub state: &'s str,
    pub exists: F,
}

/// Why a directory of pm3 could not be named.
#[derive(Debug)]
pub enum PathError {
    MissingHome(String),
    NotAbsolute(String),
    NamedHome(String),
    SocketTooLong { path: String, length: usize, limit: usize },
}

/// A refusal to name a directory, as plain values.
pub enum PathFault {
    MissingHome(Seq<char>),
    NotAbsolute(Seq<char>),
    NamedHome(Seq<char>),
    SocketTooLong { path: Seq<char>, length: nat, limit: nat },
}

impl PathError {
    pub open spec fn fault(self) -> PathFault {
        match self {
            PathError::MissingHome(s) => PathFault::MissingHome(s@),
            PathError::NotAbsolute(s) => PathFault::NotAbsolute(s@),
            PathError::NamedHome(s) => PathFault::NamedHome(s@),
            PathError::SocketTooLong { path, length, limit } => PathFault::SocketTooLong {
                path: path@,
                length: length as nat,
                limit: limit as nat,
            },
        }
    }
}

pub open spec fn path_outcome(spec: Result<Seq<char>, PathFault>, r: Result<String, PathError>) -> bool {
    match r {
        Ok(p) => spec == Ok::<Seq<char>, PathFault>(p@),
        Err(e) => spec == Err::<Seq<char>, PathFault>(e.fault()),
    }
}

impl Pm3Roots {
    pub open spec fn single_spec(self) -> bool {
        self.config@ == self.state@ && self.state@ == self.runtime@ && self.runtime@ == self.data@
    }

    /// All four directories in one place.
    pub fn single(root: &str) -> (r: Pm3Roots)
        ensures
            r.config@ == root@,
            r.state@ == root@,
            r.runtime@ == root@,
            r.data@ == root@,
    {
        Pm3Roots {
            config: root.to_string(),
            state: root.to_string(),
            runtime: root.to_string(),
            data: root.to_string(),
        }
    }

    /// Each directory in its own place.
    pub fn split(config: String, state: String, runtime: String, data: String) -> (r: Pm3Roots)
        ensures
            r.config == config,
            r.state == state,
            r.runtime == runtime,
            r.data == data,
    {
        Pm3Roots { config, state, runtime, data }
    }

    /// Whether all four directories are one.
    pub fn is_single(&self) -> (r: bool)
        ensures
            r == self.single_spec(),
    {
        let c = chars_of(&self.config);
        let s = chars_of(&self.state);
        let ru = chars_of(&self.runtime);
        let d = chars_of(&self.data);
        same_chars(&c, &s) && same_chars(&s, &ru) && same_chars(&ru, &d)
    }
}

/// The apps directory: the state directory itself when all is in one
/// place, else `apps` under it.
pub open spec fn apps_dir_of(roots: Pm3Roots) -> Seq<char> {
    if roots.single_spec() {
        roots.state@
    } else {
        join_path(roots.state@, APPS_DIR@)
    }
}

/// Places each of pm3's files in its directory.
pub fn resolve_paths(roots: Pm3Roots) -> (r: Pm3Paths)
    ensures
        r.root@ == roots.state@,
        r.socket@ == join_path(roots.runtime@, SOCKET_FILE@),
        r.pid_file@ == join_path(roots.runtime@, PID_FILE@),
        r.lock_file@ == join_path(roots.runtime@, LOCK_FILE@),
        r.config_file@ == join_path(roots.config@, CONFIG_FILE@),
        r.dump_file@ == join_path(roots.state@, DUMP_FILE@),
        r.logs_dir@ == join_path(roots.state@, LOGS_DIR@),
        r.daemon_log@ == join_path(roots.state@, DAEMON_LOG_FILE@),
        r.apps_dir@ == apps_dir_of(roots),
        r.backups_dir@ == join_path(roots.data@, BACKUPS_DIR@),
        r.roots == roots,
{
    let apps_dir = if roots.is_single() {
        roots.state.clone()
    } else {
        join(&roots.state, APPS_DIR)
    };
    Pm3Paths {
        root: roots.state.clone(),
        socket: join(&roots.runtime, SOCKET_FILE),
        pid_file: join(&roots.runtime, PID_FILE),
        lock_file: join(&roots.runtime, LOCK_FILE),
        config_file: join(&roots.config, CONFIG_FILE),
        dump_file: join(&roots.state, DUMP_FILE),
        logs_dir: join(&roots.state, LOGS_DIR),
        daemon_log: join(&roots.state, DAEMON_LOG_FILE),
        apps_dir,
        backups_dir: join(&roots.data, BACKUPS_DIR),
        roots,
    }
}

/// A value that is set and not empty.
pub open spec fn named(value: Option<Seq<char>>) -> Option<Seq<char>> {
    match value {
        Some(v) => if v.len() > 0 {
            Some(v)
        } else {
            None
        },
        None => None,
    }
}

/// `s` without its leading slashes.
pub open spec fn trim_slashes(s: Seq<char>) -> Seq<char>
    decreases s.len(),
{
    if s.len() > 0 && s[0] == '/' {
        trim_slashes(s.skip(1))
    } else {
        s
    }
}

/// A directory named in a configuration, with `~` standing for `home_env`.
pub open spec fn expand_home_spec(raw: Seq<char>, home_env: Option<Seq<char>>) -> Result<
    Seq<char>,
    PathFault,
> {
    if raw.len() > 0 && raw[0] == '~' {
        let suffix = raw.skip(1);
        if suffix.len() > 0 && suffix[0] != '/' {
            Err(PathFault::NamedHome(raw))
        } else {
            match named(home_env) {
                None => Err(PathFault::MissingHome(raw)),
                Some(home) => {
                    let trimmed = trim_slashes(suffix);
                    if trimmed.len() == 0 {
                        Ok(home)
                    } else {
                        Ok(join_path(home, trimmed))
                    }
                },
            }
        }
    } else if is_absolute(raw) {
        Ok(raw)
    } else {
        Err(PathFault::NotAbsolute(raw))
    }
}

fn named_exec<'a>(value: Option<&'a str>) -> (r: Option<&'a str>)
    ensures
        opt_view(r) == named(opt_view(value)),
{
    match value {
        Some(v) => if v.is_empty() {
            None
        } else {
            Some(v)
        },
        None => None,
    }
}

/// Expands a leading `~` with the home directory; anything else must be absolute.
pub fn expand_home(raw: &str, home_env: Option<&str>) -> (r: Result<String, PathError>)
    ensures
        path_outcome(expand_home_spec(raw@, opt_view(home_env)), r),
{
    let v = chars_of(raw);
    if v.len() > 0 && v[0] == '~' {
        let suffix = slice_of(&v, 1, v.len());
        assert(suffix@ == raw@.skip(1));
        if suffix.len() > 0 && suffix[0] != '/' {
            return Err(PathError::NamedHome(raw.to_string()));
        }
        let Some(home) = named_exec(home_env) else {
            return Err(PathError::MissingHome(raw.to_string()));
        };
        let mut start: usize = 0;
        assert(suffix@.skip(0) == suffix@);
        while start < suffix.len() && suffix[start] == '/'
            invariant
                start <= suffix.len(),
                trim_slashes(suffix@) == trim_slashes(suffix@.skip(start as int)),
            decreases suffix.len() - start,
        {
            assert(suffix@.skip(start as int).skip(1) == suffix@.skip(start + 1));
            start = start + 1;
        }
        let trimmed = slice_of(&suffix, start, suffix.len());
        assert(trimmed@ == suffix@.skip(start as int));
        if trimmed.len() == 0 {
            return Ok(home.to_string());
        }
        let h = chars_of(home);
        let joined = crate::path::join_chars(&h, &trimmed);
        return Ok(string_of(&joined));
    }
    if v.len() > 0 && v[0] == '/' {
        return Ok(raw.to_string());
    }
    Err(PathError::NotAbsolute(raw.to_string()))
}

/// A directory of the XDG family: the declared one, else the XDG base or
/// its fallback with `pm3` under it.
pub open spec fn xdg_root(
    declared: Option<Seq<char>>,
    xdg: Option<Seq<char>>,
    fallback: Seq<char>,
    home_env: Option<Seq<char>>,
) -> Result<Seq<char>, PathFault> {
    match named(declared) {
        Some(root) => expand_home_spec(root, home_env),
        None => {
            let base = match named(xdg) {
                Some(b) => b,
                None => fallback,
            };
            match expand_home_spec(base, home_env) {
                Ok(b) => Ok(join_path(b, PM3_SUBDIR@)),
                Err(e) => Err(e),
            }
        },
    }
}

fn resolve_xdg_root(
    declared: Option<&str>,
    xdg: Option<&str>,
    fallback: &str,
    home_env: Option<&str>,
) -> (r: Result<String, PathError>)
    ensures
        path_outcome(xdg_root(opt_view(declared), opt_view(xdg), fallback@, opt_view(home_env)), r),
{
    if let Some(root) = named_exec(declared) {
        return expand_home(root, home_env);
    }
    let base = match named_exec(xdg) {
        Some(b) => b,
        None => fallback,
    };
    let expanded = expand_home(base, home_env)?;
    Ok(join(&expanded, PM3_SUBDIR))
}

/// Where the configuration lives.
pub fn resolve_config_root(declared: Option<&str>, xdg: Option<&str>, home_env: Option<&str>) -> (r:
    Result<String, PathError>)
    ensures
        path_outcome(
            xdg_root(opt_view(declared), opt_view(xdg), XDG_CONFIG_FALLBACK@, opt_view(home_env)),
            r,
        ),
{
    resolve_xdg_root(declared, xdg, XDG_CONFIG_FALLBACK, home_env)
}

/// Where the state lives.
pub fn resolve_state_root(declared: Option<&str>, xdg: Option<&str>, home_env: Option<&str>) -> (r:
    Result<String, PathError>)
    ensures
        path_outcome(
            xdg_root(opt_view(declared), opt_view(xdg), XDG_STATE_FALLBACK@, opt_view(home_env)),
            r,
        ),
{
    resolve_xdg_root(declared, xdg, XDG_STATE_FALLBACK, home_env)
}

/// Where the data lives.
pub fn resolve_data_root(declared: Option<&str>, xdg: Option<&str>, home_env: Option<&str>) -> (r:
    Result<String, PathError>)
    ensures
        path_outcome(
            xdg_root(opt_view(declared), opt_view(xdg), XDG_DATA_FALLBACK@, opt_view(home_env)),
            r,
        ),
{
    resolve_xdg_root(declared, xdg, XDG_DATA_FALLBACK, home_env)
}

/// The per-user runtime base of a user: `/run/user/<uid>`.
pub open spec fn user_runtime_base(uid: u32) -> Seq<char> {
    join_path(RUNTIME_DIR_ROOT@, decimal(uid as nat))
}

/// The per-user runtime base, for the caller to look for on the host.
pub fn per_user_runtime_base(uid: u32) -> (r: String)
    ensures
        r@ == user_runtime_base(uid),
{
    let mut digits: Vec<char> = Vec::new();
    push_decimal(&mut digits, uid as u64);
    let root = chars_of(RUNTIME_DIR_ROOT);
    let joined = crate::path::join_chars(&root, &digits);
    string_of(&joined)
}

/// The runtime directory: the declared one, else under the XDG runtime
/// directory, else under the per-user base when it exists, else `run`
/// under the state directory.
pub open spec fn runtime_root(
    declared: Option<Seq<char>>,
    xdg: Option<Seq<char>>,
    uid: Option<u32>,
    state: Seq<char>,
    user_dir_present: bool,
) -> Seq<char> {
    match named(declared) {
        Some(root) => root,
        None => match named(xdg) {
            Some(root) => join_path(root, PM3_SUBDIR@),
            None => match uid {
                Some(owner) => if user_dir_present {
                    join_path(user_runtime_base(owner), PM3_SUBDIR@)
                } else {
                    join_path(state, RUNTIME_SUBDIR@)
                },
                None => join_path(state, RUNTIME_SUBDIR@),
            },
        },
    }
}

/// Whether the host is asked about the per-user base: only when neither a
/// declared nor an XDG runtime directory is named and the user is known.
pub open spec fn asks_for_user_dir(
    declared: Option<Seq<char>>,
    xdg: Option<Seq<char>>,
    uid: Option<u32>,
) -> bool {
    named(declared) is None && named(xdg) is None && uid is Some
}

/// Whether `exists` answered `answer` when asked about `path`.
pub open spec fn existence_answered<F: Fn(&str) -> bool>(exists: F, path: Seq<char>, answer: bool) -> bool {
    exists|p: &str| p@ == path && #[trigger] exists.ensures((p,), answer)
}

/// Where the socket, the pid file and the lock live. The host is asked once,
/// about the per-user base, and only when that base is the next choice.
pub fn resolve_runtime_root<F: Fn(&str) -> bool>(sources: &RuntimeSources<F>) -> (r: String)
    requires
        forall|p: &str| #[trigger] (sources.exists).requires((p,)),
    ensures
        !asks_for_user_dir(opt_view(sources.declared), opt_view(sources.xdg), sources.uid) ==> r@
            == runtime_root(
            opt_view(sources.declared),
            opt_view(sources.xdg),
            sources.uid,
            sources.state@,
            false,
        ),
        asks_for_user_dir(opt_view(sources.declared), opt_view(sources.xdg), sources.uid)
            ==> exists|present: bool|
            existence_answered(sources.exists, user_runtime_base(sources.uid->0), present) && r@
                == #[trigger] runtime_root(
                opt_view(sources.declared),
                opt_view(sources.xdg),
                sources.uid,
                sources.state@,
                present,
            ),
{
    if let Some(root) = named_exec(sources.declared) {
        return root.to_string();
    }
    if let Some(root) = named_exec(sources.xdg) {
        return join(root, PM3_SUBDIR);
    }
    if let Some(owner) = sources.uid {
        let base = per_user_runtime_base(owner);
        let present = (sources.exists)(base.as_str());
        proof {
            assert(existence_answered(sources.exists, user_runtime_base(owner), present));
        }
        if present {
            let r = join(&base, PM3_SUBDIR);
            proof {
                assert(r@ == runtime_root(
                    opt_view(sources.declared),
                    opt_view(sources.xdg),
                    sources.uid,
                    sources.state@,
                    present,
                ));
            }
            return r;
        }
        let r = join(sources.state, RUNTIME_SUBDIR);
        proof {
            assert(r@ == runtime_root(
                opt_view(sources.declared),
                opt_view(sources.xdg),
                sources.uid,
                sources.state@,
                present,
            ));
        }
        return r;
    }
    join(sources.state, RUNTIME_SUBDIR)
}

/// The byte length of `s` as `str::len` reports it.
pub open spec fn byte_len(s: &str) -> usize {
    s.spec_bytes().len() as usize
}

/// Refuses a socket path longer than the operating system takes.
pub fn check_socket_length(socket: &str) -> (r: Result<(), PathError>)
    ensures
        r is Ok <==> byte_len(socket) <= SUN_LEN_LIMIT,
        r matches Err(e) ==> e matches PathError::SocketTooLong { path, length, limit } && path@
            == socket@ && length == byte_len(socket) && limit == SUN_LEN_LIMIT,
{
    let length = socket.len();
    if length > SUN_LEN_LIMIT {
        return Err(PathError::SocketTooLong { path: socket.to_string(), length, limit: SUN_LEN_LIMIT });
    }
    Ok(())
}

/// Where the configuration file is looked for: under `PM3_HOME` when it is
/// set, else in the configuration directory.
pub open spec fn config_path(
    pm3_home_env: Option<Seq<char>>,
    pm3_config_env: Option<Seq<char>>,
    xdg_config_env: Option<Seq<char>>,
    home_env: Option<Seq<char>>,
) -> Result<Seq<char>, PathFault> {
    let dir = match named(pm3_home_env) {
        Some(root) => expand_home_spec(root, home_env),
        None => xdg_root(pm3_config_env, xdg_config_env, XDG_CONFIG_FALLBACK@, home_env),
    };
    match dir {
        Ok(d) => Ok(join_path(d, CONFIG_FILE@)),
        Err(e) => Err(e),
    }
}

/// The configuration file pm3 reads when none is named.
pub fn default_config_path(
    pm3_home_env: Option<&str>,
    pm3_config_env: Option<&str>,
    xdg_config_env: Option<&str>,
    home_env: Option<&str>,
) -> (r: Result<String, PathError>)
    ensures
        path_outcome(
            config_path(
                opt_view(pm3_home_env),
                opt_view(pm3_config_env),
                opt_view(xdg_config_env),
                opt_view(home_env),
            ),
            r,
        ),
{
    if let Some(root) = named_exec(pm3_home_env) {
        let dir = expand_home(root, home_env)?;
        return Ok(join(&dir, CONFIG_FILE));
    }
    let dir = resolve_config_root(pm3_config_env, xdg_config_env, home_env)?;
    Ok(join(&dir, CONFIG_FILE))
}

} // verus!
