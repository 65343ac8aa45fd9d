use vstd::prelude::*;

use crate::domain::Liveness;
use crate::text::chars_of;

verus! {

/// How often an adopted process is polled: the first pause, and the longest
/// one the doubling pauses grow to.
#[derive(Clone, Copy, Debug)]
pub struct PollCadence {
    pub interval_ms: u64,
    pub max_interval_ms: u64,
}

impl PollCadence {
    /// The pause after one of `waited_ms`: twice as long, but no longer than
    /// the longest pause.
    pub fn next_after(self, waited_ms: u64) -> (r: u64)
        ensures
            r == if 2 * waited_ms > self.max_interval_ms {
                self.max_interval_ms as int
            } else {
                2 * waited_ms
            },
    {
        if waited_ms > self.max_interval_ms / 2 {
            return self.max_interval_ms;
        }
        waited_ms * 2
    }

    /// The first pause: the interval, at least one millisecond.
    pub fn first_step(self) -> (r: u64)
        ensures
            r == if self.interval_ms == 0 {
                1
            } else {
                self.interval_ms
            },
    {
        if self.interval_ms == 0 {
            1
        } else {
            self.interval_ms
        }
    }
}

/// Whether the process seen under `pid` is still the one pm3 adopted: any
/// process does when no start token was recorded, else only one with that token.
pub open spec fn same_process(token: Option<Seq<char>>, seen: Seq<char>) -> bool {
    match token {
        None => true,
        Some(expected) => expected == seen,
    }
}

/// Whether the process pm3 adopted under `pid` still runs.
pub fn holds_the_same_process(pid: u32, token: Option<&str>, seen: &str) -> (r: bool)
    ensures
        r == same_process(crate::env_file::opt_view(token), seen@),
{
    let Some(expected) = token else {
        return true;
    };
    let e = chars_of(expected);
    let s = chars_of(seen);
    crate::text::same_chars(&e, &s)
}

/// Whether an adopted process still runs, given what the probe saw: an
/// unreadable answer keeps it, a missing or gone one releases it.
pub fn still_running(pid: u32, token: Option<&str>, seen: Option<&Liveness>) -> (r: bool)
    ensures
        r == match seen {
            Some(Liveness::Alive(reported)) => same_process(
                crate::env_file::opt_view(token),
                reported@,
            ),
            Some(Liveness::Unreadable) => true,
            _ => false,
        },
{
    match seen {
        Some(Liveness::Alive(reported)) => holds_the_same_process(pid, token, reported),
        Some(Liveness::Unreadable) => true,
        _ => false,
    }
}


/// Reads the wall clock.
#[derive(Clone, Copy, Debug)]
pub struct SystemClock;

/// Milliseconds since the epoch as a `u64`, the largest one when they do not fit.
pub fn clamp_millis(millis: u128) -> (r: u64)
    ensures
        r == if millis > u64::MAX as u128 {
            u64::MAX
        } else {
            millis as u64
        },
{
    if millis > u64::MAX as u128 {
        u64::MAX
    } else {
        millis as u64
    }
}

/// Checks whether a service is ready, giving each attempt a time budget.
#[derive(Debug)]
pub struct HostReadyProber {
    attempt_timeout_ms: u64,
}

impl HostReadyProber {
    pub closed spec fn budget(&self) -> u64 {
        self.attempt_timeout_ms
    }

    pub fn new(attempt_timeout_ms: u64) -> (r: HostReadyProber)
        ensures
            r.budget() == attempt_timeout_ms,
    {
        HostReadyProber { attempt_timeout_ms }
    }

    /// How long one attempt may take.
    pub fn attempt_timeout_ms(&self) -> (r: u64)
        ensures
            r == self.budget(),
    {
        self.attempt_timeout_ms
    }
}

/// Whether a service is ready, as one attempt of its readiness probe found.
#[derive(Debug)]
pub enum Readiness {
    Ready,
    Pending,
    Failed(String),
}

pub const NO_PROBE_COMMAND: &'static str = "the ready probe has no command";

/// How an exec readiness probe runs: its first word is the program and the
/// rest its arguments. A probe with no words fails before anything runs.
pub fn exec_probe_launch(command: &Vec<String>) -> (r: Result<(String, Vec<String>), Readiness>)
    ensures
        command.len() == 0 <==> r is Err,
        r matches Err(Readiness::Failed(reason)) ==> reason@ == NO_PROBE_COMMAND@,
        r is Err ==> r matches Err(Readiness::Failed(_)),
        r matches Ok((program, args)) ==> program@ == command@[0]@ && args.deep_view()
            == command.deep_view().skip(1),
{
    if command.len() == 0 {
        return Err(Readiness::Failed(NO_PROBE_COMMAND.to_string()));
    }
    let program = command[0].clone();
    let mut args: Vec<String> = Vec::new();
    let mut i: usize = 1;
    while i < command.len()
        invariant
            1 <= i <= command.len(),
            args.deep_view() == command.deep_view().subrange(1, i as int),
        decreases command.len() - i,
    {
        let word = command[i].clone();
        let ghost before = args.deep_view();
        args.push(word);
        proof {
            assert(command.deep_view()[i as int] == command@[i as int]@);
            assert(args.deep_view() =~= before.push(command@[i as int]@));
            assert(command.deep_view().subrange(1, i + 1) =~= command.deep_view().subrange(
                1,
                i as int,
            ).push(command.deep_view()[i as int]));
        }
        i = i + 1;
    }
    assert(command.deep_view().skip(1) =~= command.deep_view().subrange(1, command.len() as int));
    Ok((program, args))
}

/// The readiness an attempt shows once it has run: ready when it succeeded
/// within its budget, else still pending.
pub fn attempt_readiness(succeeded_in_time: bool) -> (r: Readiness)
    ensures
        succeeded_in_time <==> r is Ready,
        !succeeded_in_time <==> r is Pending,
{
    if succeeded_in_time {
        Readiness::Ready
    } else {
        Readiness::Pending
    }
}

} // verus!
