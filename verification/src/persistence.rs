use vstd::prelude::*;

use crate::apps_file::AppsFileError;
use crate::enc_file::EncFileError;
use crate::text::{chars_of, clone_opt_string, push_str, string_of};

verus! {

/// The suffix of the file a state file is written to before it replaces it.
pub const TMP_SUFFIX: &'static str = ".tmp";

/// The saved state of the services, as the state file holds it.
#[derive(Clone, Debug)]
pub struct DumpDocument {
    pub services: Vec<StateDto>,
}

/// The saved state of one service.
#[derive(Clone, Debug)]
pub struct StateDto {
    pub name: String,
    pub runtime: RuntimeDto,
}

/// What pm3 remembers of a service's process across restarts.
#[derive(Clone, Debug)]
pub struct RuntimeDto {
    pub pm_id: u32,
    pub status: String,
    pub restart_time: u32,
    pub unstable_restarts: u32,
    pub created_at_ms: u64,
    pub pid: Option<u32>,
    pub started_at_ms: Option<u64>,
    pub identity: Option<IdentityDto>,
    pub schedule_armed: bool,
}

/// How pm3 recognises the process it started: its start token and the
/// digests of what it launched.
#[derive(Clone, Debug)]
pub struct IdentityDto {
    pub token: String,
    pub launch_digest: String,
    pub binary_digest: String,
}

/// A saved service whose app pm3 can no longer restore: what it needs to
/// find the process again.
#[derive(Debug)]
pub struct StrandedProcess {
    pub name: String,
    pub pid: Option<u32>,
    pub token: Option<String>,
}

/// A saved service as a listing of the state file shows it.
#[derive(Debug)]
pub struct ServiceSnapshot {
    pub name: String,
    pub pid: Option<u32>,
}

/// Where the state file at `path` is written before it replaces it.
pub fn staging_path(path: &str) -> (r: String)
    ensures
        r@ == path@ + TMP_SUFFIX@,
{
    let mut out = chars_of(path);
    push_str(&mut out, TMP_SUFFIX);
    string_of(&out)
}

/// What is kept of a saved service that cannot be restored.
pub fn stranded_of(state: &StateDto) -> (r: StrandedProcess)
    ensures
        r.name@ == state.name@,
        r.pid == state.runtime.pid,
        r.token.deep_view() == match state.runtime.identity {
            Some(identity) => Some(identity.token@),
            None => None,
        },
{
    let token = match &state.runtime.identity {
        Some(identity) => Some(identity.token.clone()),
        None => None,
    };
    StrandedProcess { name: state.name.clone(), pid: state.runtime.pid, token }
}

/// What a listing of the state file shows of a saved service.
pub fn snapshot_of(state: StateDto) -> (r: ServiceSnapshot)
    ensures
        r.name == state.name,
        r.pid == state.runtime.pid,
{
    ServiceSnapshot { name: state.name, pid: state.runtime.pid }
}

/// How the supervisor recognises a process it started: its start token and
/// the digests of what it launched.
#[derive(Clone, Debug)]
pub struct ProcessIdentity {
    pub token: String,
    pub launch_digest: String,
    pub binary_digest: String,
}

/// The supervisor's runtime state of one service; `S` is the supervisor's
/// status type.
#[derive(Clone, Debug)]
pub struct ProcessRuntime<S> {
    pub pm_id: u32,
    pub name: String,
    pub pid: Option<u32>,
    pub status: S,
    pub restart_time: u32,
    pub unstable_restarts: u32,
    pub created_at_ms: u64,
    pub started_at_ms: Option<u64>,
    pub identity: Option<ProcessIdentity>,
    pub pending_restart: bool,
    pub schedule_armed: bool,
}

/// A service the supervisor manages: what it runs (`A`) and how it runs.
#[derive(Clone, Debug)]
pub struct ProcessRecord<A, S> {
    pub spec: A,
    pub runtime: ProcessRuntime<S>,
}

/// Why a saved service cannot be turned back into runtime state; `E` is the
/// supervisor's reason for refusing a state as inconsistent.
#[derive(Debug)]
pub enum DecodeError<E> {
    UnknownStatus { app: String, status: String },
    InconsistentState { app: String, source: E },
}

/// What becomes of a saved service when the state file is read back.
#[derive(Debug)]
pub enum Rejoined<A, S> {
    Record(ProcessRecord<A, S>),
    Stranded(StrandedProcess),
}

/// `identity` holds the saved identity `saved`, field for field.
pub open spec fn identity_decoded(saved: IdentityDto, identity: ProcessIdentity) -> bool {
    &&& identity.token == saved.token
    &&& identity.launch_digest == saved.launch_digest
    &&& identity.binary_digest == saved.binary_digest
}

/// `runtime` is the saved service `state`, with the status `status` and no
/// restart pending.
pub open spec fn runtime_decoded<S>(state: StateDto, status: S, runtime: ProcessRuntime<S>) -> bool {
    &&& runtime.pm_id == state.runtime.pm_id
    &&& runtime.name == state.name
    &&& runtime.pid == state.runtime.pid
    &&& runtime.status == status
    &&& runtime.restart_time == state.runtime.restart_time
    &&& runtime.unstable_restarts == state.runtime.unstable_restarts
    &&& runtime.created_at_ms == state.runtime.created_at_ms
    &&& runtime.started_at_ms == state.runtime.started_at_ms
    &&& match (state.runtime.identity, runtime.identity) {
        (None, None) => true,
        (Some(saved), Some(identity)) => identity_decoded(saved, identity),
        _ => false,
    }
    &&& !runtime.pending_restart
    &&& runtime.schedule_armed == state.runtime.schedule_armed
}

/// `parse` answered `answer` for the status text `text`.
pub open spec fn status_read<S, P: Fn(&str) -> Option<S>>(
    parse: P,
    text: Seq<char>,
    answer: Option<S>,
) -> bool {
    exists|t: &str| t@ == text && #[trigger] parse.ensures((t,), answer)
}

/// Some decoding of `state` with a status that `parse` read from its text was
/// judged inconsistent by `check`, for the reason `source`.
pub open spec fn judged_inconsistent<S, E, P, C>(state: StateDto, parse: P, check: C, source: E) -> bool where
    P: Fn(&str) -> Option<S>,
    C: Fn(&ProcessRuntime<S>) -> Result<(), E>,
 {
    exists|runtime: ProcessRuntime<S>|
        {
            &&& runtime_decoded(state, runtime.status, runtime)
            &&& status_read(parse, state.runtime.status@, Some(runtime.status))
            &&& #[trigger] check.ensures((&runtime,), Err(source))
        }
}

fn decode_identity(saved: IdentityDto) -> (r: ProcessIdentity)
    ensures
        identity_decoded(saved, r),
{
    ProcessIdentity {
        token: saved.token,
        launch_digest: saved.launch_digest,
        binary_digest: saved.binary_digest,
    }
}

/// Turns a saved service back into runtime state. `parse_status` reads the
/// saved status text and `check` judges whether the state is consistent; the
/// result says which answer of theirs it follows.
pub fn decode_state<S, E, P, C>(state: StateDto, parse_status: P, check: C) -> (r: Result<
    ProcessRuntime<S>,
    DecodeError<E>,
>) where P: Fn(&str) -> Option<S>, C: Fn(&ProcessRuntime<S>) -> Result<(), E>
    requires
        forall|t: &str| #[trigger] parse_status.requires((t,)),
        forall|rt: &ProcessRuntime<S>| #[trigger] check.requires((rt,)),
    ensures
        r matches Ok(runtime) ==> runtime_decoded(state, runtime.status, runtime),
        r matches Ok(runtime) ==> status_read(
            parse_status,
            state.runtime.status@,
            Some(runtime.status),
        ),
        r matches Ok(runtime) ==> check.ensures((&runtime,), Ok(())),
        r matches Err(DecodeError::UnknownStatus { app, status }) ==> {
            &&& app == state.name
            &&& status == state.runtime.status
            &&& status_read(parse_status, state.runtime.status@, None)
        },
        r matches Err(DecodeError::InconsistentState { app, source }) ==> {
            &&& app == state.name
            &&& judged_inconsistent(state, parse_status, check, source)
        },
{
    let ghost saved = state;
    let StateDto { name, runtime } = state;
    let RuntimeDto {
        pm_id,
        status,
        restart_time,
        unstable_restarts,
        created_at_ms,
        pid,
        started_at_ms,
        identity,
        schedule_armed,
    } = runtime;
    let text = status.as_str();
    let answer = parse_status(text);
    let parsed = match answer {
        Some(parsed) => parsed,
        None => {
            return Err(DecodeError::UnknownStatus { app: name, status });
        },
    };
    assert(status_read(parse_status, saved.runtime.status@, Some(parsed)));
    let identity = match identity {
        Some(saved_identity) => Some(decode_identity(saved_identity)),
        None => None,
    };
    let decoded = ProcessRuntime {
        pm_id,
        name,
        pid,
        status: parsed,
        restart_time,
        unstable_restarts,
        created_at_ms,
        started_at_ms,
        identity,
        pending_restart: false,
        schedule_armed,
    };
    let verdict = check(&decoded);
    match verdict {
        Ok(unit) => {
            assert(unit == ());
            Ok(decoded)
        },
        Err(source) => {
            assert(judged_inconsistent(saved, parse_status, check, source));
            Err(DecodeError::InconsistentState { app: decoded.name.clone(), source })
        },
    }
}

/// `state` saves `runtime`, with `status` as the text of its status.
pub open spec fn state_encoded<S>(runtime: ProcessRuntime<S>, status: String, state: StateDto) -> bool {
    &&& state.name == runtime.name
    &&& state.runtime.pm_id == runtime.pm_id
    &&& state.runtime.status == status
    &&& state.runtime.restart_time == runtime.restart_time
    &&& state.runtime.unstable_restarts == runtime.unstable_restarts
    &&& state.runtime.created_at_ms == runtime.created_at_ms
    &&& state.runtime.pid == runtime.pid
    &&& state.runtime.started_at_ms == runtime.started_at_ms
    &&& match (runtime.identity, state.runtime.identity) {
        (None, None) => true,
        (Some(identity), Some(saved)) => identity_decoded(saved, identity),
        _ => false,
    }
    &&& state.runtime.schedule_armed == runtime.schedule_armed
}

/// `state` saves `runtime`, its status written as `status_name` gave it.
pub open spec fn saved_as<S, N: Fn(&S) -> String>(
    runtime: ProcessRuntime<S>,
    status_name: N,
    state: StateDto,
) -> bool {
    &&& state_encoded(runtime, state.runtime.status, state)
    &&& status_name.ensures((&runtime.status,), state.runtime.status)
}

fn encode_identity(identity: &ProcessIdentity) -> (r: IdentityDto)
    ensures
        identity_decoded(r, *identity),
{
    IdentityDto {
        token: identity.token.clone(),
        launch_digest: identity.launch_digest.clone(),
        binary_digest: identity.binary_digest.clone(),
    }
}

/// What the state file keeps of a managed service: its runtime state, with
/// the status written as `status_name` gives it; what it runs is not saved.
pub fn encode_state<A, S, N: Fn(&S) -> String>(record: &ProcessRecord<A, S>, status_name: &N) -> (r:
    StateDto)
    requires
        forall|s: &S| #[trigger] status_name.requires((s,)),
    ensures
        saved_as(record.runtime, *status_name, r),
{
    let runtime = &record.runtime;
    let status = status_name(&runtime.status);
    let identity = match &runtime.identity {
        Some(identity) => Some(encode_identity(identity)),
        None => None,
    };
    StateDto {
        name: runtime.name.clone(),
        runtime: RuntimeDto {
            pm_id: runtime.pm_id,
            status,
            restart_time: runtime.restart_time,
            unstable_restarts: runtime.unstable_restarts,
            created_at_ms: runtime.created_at_ms,
            pid: runtime.pid,
            started_at_ms: runtime.started_at_ms,
            identity,
            schedule_armed: runtime.schedule_armed,
        },
    }
}

/// The state file's contents for the managed services, one saved state per
/// service, in their order.
pub fn encode_states<A, S, N: Fn(&S) -> String>(records: &[ProcessRecord<A, S>], status_name: N) -> (r:
    DumpDocument)
    requires
        forall|s: &S| #[trigger] status_name.requires((s,)),
    ensures
        r.services.len() == records.len(),
        forall|i: int|
            0 <= i < records.len() ==> saved_as(records[i].runtime, status_name, #[trigger] r.services[i]),
{
    let mut services: Vec<StateDto> = Vec::new();
    for i in 0..records.len()
        invariant
            forall|s: &S| #[trigger] status_name.requires((s,)),
            services.len() == i,
            forall|j: int|
                0 <= j < i ==> saved_as(records[j].runtime, status_name, #[trigger] services[j]),
    {
        services.push(encode_state(&records[i], &status_name));
    }
    DumpDocument { services }
}

/// What is kept of a decoded service whose app can no longer be restored.
pub fn stranded_from<S>(runtime: ProcessRuntime<S>) -> (r: StrandedProcess)
    ensures
        r.name == runtime.name,
        r.pid == runtime.pid,
        r.token == match runtime.identity {
            Some(identity) => Some(identity.token),
            None => None,
        },
{
    let token = match runtime.identity {
        Some(identity) => Some(identity.token),
        None => None,
    };
    StrandedProcess { name: runtime.name, pid: runtime.pid, token }
}

/// What becomes of a decoded saved service once its app was looked up: with
/// the app found, a managed service again; with an encrypted environment
/// that cannot be read, the reading of the state file stops with that error
/// rather than evict a running service; with any other failure, a stranded
/// process.
pub fn rejoin_outcome<A, S>(runtime: ProcessRuntime<S>, resolved: Result<A, AppsFileError>) -> (r:
    Result<Rejoined<A, S>, EncFileError>)
    ensures
        match resolved {
            Ok(spec) => r == Ok::<Rejoined<A, S>, EncFileError>(
                Rejoined::Record(ProcessRecord { spec, runtime }),
            ),
            Err(AppsFileError::EncFile(e)) => r == Err::<Rejoined<A, S>, EncFileError>(e),
            Err(_) => r matches Ok(Rejoined::Stranded(stranded)) && {
                &&& stranded.name == runtime.name
                &&& stranded.pid == runtime.pid
                &&& stranded.token == match runtime.identity {
                    Some(identity) => Some(identity.token),
                    None => None,
                }
            },
        },
{
    match resolved {
        Ok(spec) => Ok(Rejoined::Record(ProcessRecord { spec, runtime })),
        Err(AppsFileError::EncFile(e)) => Err(e),
        Err(_) => Ok(Rejoined::Stranded(stranded_from(runtime))),
    }
}

} // verus!
