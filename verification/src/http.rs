use vstd::prelude::*;

use crate::domain::{
    is_app_name, parse_unsigned, validate_app_name, AppSelector, EnvDisplay, ProcessView, SpecError,
    SupervisionReply,
};
use crate::presenter::{
    affected_service, already_running_names, already_running_of, refused_names, refused_of,
    render_reply, reply_fits, service_of, unsaved_of, unsaved_reason,
};
use crate::text::{chars_of, clone_opt_string, clone_strings, push_str, string_of};

verus! {

pub const HEALTH_OK: &'static str = "ok";
pub const REQUEST_ID_HEADER: &'static str = "x-request-id";
pub const HEALTH_PATH: &'static str = "/health";
pub const APPS_PATH: &'static str = "/apps";
pub const SERVICES_STOP_ALL_PATH: &'static str = "/services/stop-all";

/// The body of a request to start services.
#[derive(Clone, Debug)]
pub struct StartRequestDto {
    pub services: Vec<String>,
}

/// The body of a request to signal a service.
#[derive(Clone, Debug)]
pub struct SignalRequestDto {
    pub signal: String,
}

/// One environment value of a service, as shown.
#[derive(Clone, Debug)]
pub struct EnvDisplayDto {
    pub key: String,
    pub value: String,
    pub scope: String,
}

/// What the daemon shows of one managed process.
#[derive(Clone, Debug)]
pub struct ProcessViewDto {
    pub pm_id: u32,
    pub name: String,
    pub pid: Option<u32>,
    pub status: String,
    pub restart_time: u32,
    pub unstable_restarts: u32,
    pub max_restarts: u32,
    pub autorestart: bool,
    pub uptime_ms: Option<u64>,
    pub next_fire_ms: Option<u64>,
    pub schedule: Option<String>,
    pub sandbox_mode: String,
    pub sandbox_read: String,
    pub sandbox_network: bool,
    pub env_origin: String,
    pub env_declared: usize,
    pub env_masked: Vec<EnvDisplayDto>,
    pub script: String,
    pub args: Vec<String>,
    pub cwd: String,
    pub depends_on: Vec<String>,
    pub writable_roots: Vec<String>,
    pub rss_kib: Option<u64>,
    pub cpu_tenths: Option<u32>,
}

impl EnvDisplayDto {
    /// Whether `dto` carries what `shown` holds.
    pub open spec fn carries(self, shown: EnvDisplay) -> bool {
        &&& self.key@ == shown.key@
        &&& self.value@ == shown.value@
        &&& self.scope@ == shown.scope@
    }

    /// The transfer form of one shown environment value.
    pub fn from_shown(shown: &EnvDisplay) -> (r: EnvDisplayDto)
        ensures
            r.carries(*shown),
    {
        EnvDisplayDto {
            key: shown.key.clone(),
            value: shown.value.clone(),
            scope: shown.scope.clone(),
        }
    }
}

impl ProcessViewDto {
    /// Whether `self` carries what `view` holds, the origin of its
    /// environment by name.
    pub open spec fn carries(self, view: ProcessView) -> bool {
        &&& self.pm_id == view.pm_id
        &&& self.name@ == view.name@
        &&& self.pid == view.pid
        &&& self.status@ == view.status@
        &&& self.restart_time == view.restart_time
        &&& self.unstable_restarts == view.unstable_restarts
        &&& self.max_restarts == view.max_restarts
        &&& self.autorestart == view.autorestart
        &&& self.uptime_ms == view.uptime_ms
        &&& self.next_fire_ms == view.next_fire_ms
        &&& self.schedule.deep_view() == view.schedule.deep_view()
        &&& self.sandbox_mode@ == view.sandbox_mode@
        &&& self.sandbox_read@ == view.sandbox_read@
        &&& self.sandbox_network == view.sandbox_network
        &&& self.env_origin@ == view.env_origin.name()
        &&& self.env_declared == view.env_declared
        &&& self.env_masked.len() == view.env.len()
        &&& forall|i: int|
            0 <= i < view.env.len() ==> (#[trigger] self.env_masked[i]).carries(view.env[i])
        &&& self.script@ == view.script@
        &&& self.args.deep_view() == view.args.deep_view()
        &&& self.cwd@ == view.cwd@
        &&& self.depends_on.deep_view() == view.depends_on.deep_view()
        &&& self.writable_roots.deep_view() == view.writable_roots.deep_view()
        &&& self.rss_kib == view.rss_kib
        &&& self.cpu_tenths == view.cpu_tenths
    }

    /// The transfer form of what the daemon knows of a service.
    pub fn from_view(view: &ProcessView) -> (r: ProcessViewDto)
        ensures
            r.carries(*view),
    {
        let mut env_masked: Vec<EnvDisplayDto> = Vec::new();
        let mut i: usize = 0;
        while i < view.env.len()
            invariant
                i <= view.env.len(),
                env_masked.len() == i,
                forall|k: int| 0 <= k < i ==> (#[trigger] env_masked[k]).carries(view.env[k]),
            decreases view.env.len() - i,
        {
            env_masked.push(EnvDisplayDto::from_shown(&view.env[i]));
            i = i + 1;
        }
        ProcessViewDto {
            pm_id: view.pm_id,
            name: view.name.clone(),
            pid: view.pid,
            status: view.status.clone(),
            restart_time: view.restart_time,
            unstable_restarts: view.unstable_restarts,
            max_restarts: view.max_restarts,
            autorestart: view.autorestart,
            uptime_ms: view.uptime_ms,
            next_fire_ms: view.next_fire_ms,
            schedule: clone_opt_string(&view.schedule),
            sandbox_mode: view.sandbox_mode.clone(),
            sandbox_read: view.sandbox_read.clone(),
            sandbox_network: view.sandbox_network,
            env_origin: view.env_origin.as_str().to_string(),
            env_declared: view.env_declared,
            env_masked,
            script: view.script.clone(),
            args: clone_strings(&view.args),
            cwd: view.cwd.clone(),
            depends_on: clone_strings(&view.depends_on),
            writable_roots: clone_strings(&view.writable_roots),
            rss_kib: view.rss_kib,
            cpu_tenths: view.cpu_tenths,
        }
    }
}

/// The daemon's answer to a request.
#[derive(Clone, Debug)]
pub struct ReplyDto {
    pub report: String,
    pub service: Option<String>,
    pub already_running: Vec<String>,
    pub refused: Vec<String>,
    pub unsaved: Option<String>,
    pub deleted: Vec<String>,
    pub views: Vec<ProcessViewDto>,
}

/// The answer to a health check.
#[derive(Clone, Debug)]
pub struct HealthDto {
    pub status: String,
}

/// Why a reply of the daemon could not be read.
#[derive(Debug)]
pub struct ReplyDecodeError {
    pub reason: String,
}

impl HealthDto {
    /// The answer of a healthy daemon.
    pub fn healthy() -> (r: HealthDto)
        ensures
            r.status@ == HEALTH_OK@,
    {
        HealthDto { status: HEALTH_OK.to_string() }
    }
}

/// The reply that carries only a refusal's report.
pub fn refusal(report: String) -> (r: ReplyDto)
    ensures
        r.report == report,
        r.service is None,
        r.already_running@.len() == 0,
        r.refused@.len() == 0,
        r.unsaved is None,
        r.deleted@.len() == 0,
        r.views@.len() == 0,
{
    ReplyDto {
        report,
        service: None,
        already_running: Vec::new(),
        refused: Vec::new(),
        unsaved: None,
        deleted: Vec::new(),
        views: Vec::new(),
    }
}

/// Whether a selector may stand in a request path: a numeric id, or an
/// app name pm3 accepts.
pub open spec fn addressable(selector: Seq<char>) -> bool {
    parse_unsigned(selector, u32::MAX as nat) is Some || is_app_name(selector)
}

fn check_addressable(selector: &str) -> (r: Result<(), SpecError>)
    ensures
        r is Ok <==> addressable(selector@),
        r matches Err(SpecError::InvalidName { name }) ==> name@ == selector@,
{
    match AppSelector::parse(selector) {
        AppSelector::Id(_) => Ok(()),
        AppSelector::Name(name) => validate_app_name(&name),
    }
}

/// The request path of an app.
pub fn app_path(selector: &str) -> (r: Result<String, SpecError>)
    ensures
        r is Ok <==> addressable(selector@),
        r matches Ok(p) ==> p@ == APPS_PATH@ + seq!['/'] + selector@,
        r matches Err(SpecError::InvalidName { name }) ==> name@ == selector@,
{
    check_addressable(selector)?;
    let mut out: Vec<char> = Vec::new();
    push_str(&mut out, APPS_PATH);
    out.push('/');
    push_str(&mut out, selector);
    Ok(string_of(&out))
}

/// The request path of an action on an app.
pub fn app_action_path(selector: &str, action: &str) -> (r: Result<String, SpecError>)
    ensures
        r is Ok <==> addressable(selector@),
        r matches Ok(p) ==> p@ == APPS_PATH@ + seq!['/'] + selector@ + seq!['/'] + action@,
        r matches Err(SpecError::InvalidName { name }) ==> name@ == selector@,
{
    check_addressable(selector)?;
    let mut out: Vec<char> = Vec::new();
    push_str(&mut out, APPS_PATH);
    out.push('/');
    push_str(&mut out, selector);
    out.push('/');
    push_str(&mut out, action);
    Ok(string_of(&out))
}

pub const RESULT_SERVER_ERROR: &'static str = "server_error";
pub const RESULT_CLIENT_ERROR: &'static str = "client_error";
pub const RESULT_OK: &'static str = "ok";

/// How a response status is counted in the logs.
pub fn classify_status_result(status: u16) -> (r: &'static str)
    ensures
        500 <= status <= 599 ==> r == RESULT_SERVER_ERROR,
        400 <= status <= 499 ==> r == RESULT_CLIENT_ERROR,
        !(400 <= status <= 599) ==> r == RESULT_OK,
{
    if 500 <= status && status <= 599 {
        RESULT_SERVER_ERROR
    } else if 400 <= status && status <= 499 {
        RESULT_CLIENT_ERROR
    } else {
        RESULT_OK
    }
}


/// The reply to a request the daemon carried out: the report, and the
/// names the client needs to act on.
pub fn envelope(reply: &SupervisionReply) -> (r: ReplyDto)
    ensures
        reply_fits(*reply, r.report@),
        r.service.deep_view() == service_of(*reply),
        r.already_running.deep_view() == already_running_of(*reply),
        r.refused.deep_view() == refused_of(*reply),
        r.unsaved.deep_view() == unsaved_of(*reply),
        r.deleted@.len() == 0,
        r.views@.len() == 0,
{
    ReplyDto {
        report: render_reply(reply),
        service: affected_service(reply),
        already_running: already_running_names(reply),
        refused: refused_names(reply),
        unsaved: unsaved_reason(reply),
        deleted: Vec::new(),
        views: Vec::new(),
    }
}


/// The id a request is logged under: the one its `x-request-id` header
/// carries when it carries one, else `fallback`, the next number of the
/// daemon's own count.
pub fn request_id_from(header: Option<&str>, fallback: u64) -> (r: String)
    ensures
        r@ == match header {
            Some(h) => if h@.len() > 0 {
                h@
            } else {
                crate::text::decimal(fallback as nat)
            },
            None => crate::text::decimal(fallback as nat),
        },
{
    if let Some(h) = header {
        if !h.is_empty() {
            return h.to_string();
        }
    }
    crate::text::decimal_string(fallback)
}

} // verus!
