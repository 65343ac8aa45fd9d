use vstd::prelude::*;

use crate::domain::{SignalError, SignalScope};
use crate::exit_status::{describe_refusal, exit_code_of, refusal_text, UNKNOWN_EXIT_CODE};
use crate::text::{chars_of, decimal, push_decimal, push_str, string_of};

verus! {

/// The program that delivers signals.
pub const KILL_PROGRAM: &'static str = "/bin/kill";

/// The signal that ends a process that would not stop.
pub const FORCE_SIGNAL: &'static str = "KILL";

/// The smallest pid pm3 will signal: 0 and 1 stand for groups and init.
pub const LOWEST_SIGNALABLE_PID: u32 = 2;

pub const UNSAFE_PID_REASON: &'static str = "pid is outside the safe range";

/// Delivers signals to managed processes by running a kill program.
#[derive(Clone, Debug)]
pub struct KillSignaler {
    program: String,
    stop_signal: String,
    timeout_ms: u64,
}

/// Whether `pid` may be signalled: neither a group selector nor init, and
/// small enough to be a positive `pid_t`.
pub open spec fn signalable(pid: u32) -> bool {
    LOWEST_SIGNALABLE_PID <= pid <= i32::MAX
}

/// Whether `pid` may be signalled.
pub fn is_signalable(pid: u32) -> (r: bool)
    ensures
        r == signalable(pid),
{
    pid >= LOWEST_SIGNALABLE_PID && pid <= i32::MAX as u32
}

/// The kill target that names the whole process group led by `pid`.
pub fn group_target(pid: u32) -> (r: String)
    ensures
        r@ == seq!['-'] + decimal(pid as nat),
{
    let mut out: Vec<char> = Vec::new();
    out.push('-');
    push_decimal(&mut out, pid as u64);
    string_of(&out)
}

/// The arguments of the kill program that send `signal` to `target`.
pub fn signal_arguments(signal: &str, target: &str, pid: u32) -> (r: Vec<String>)
    ensures
        r.deep_view() == seq![seq!['-'] + signal@, "--"@, target@],
{
    let mut flag: Vec<char> = Vec::new();
    flag.push('-');
    push_str(&mut flag, signal);
    let mut r: Vec<String> = Vec::new();
    r.push(string_of(&flag));
    r.push("--".to_string());
    r.push(target.to_string());
    assert(r.deep_view() =~= seq![seq!['-'] + signal@, "--"@, target@]);
    r
}

/// The kill targets for a signal to `pid`, in the order they are tried: the
/// group first when the scope reaches it, then the process itself.
pub open spec fn target_order(pid: u32, scope: SignalScope) -> Seq<Seq<char>> {
    if scope == SignalScope::Group {
        seq![seq!['-'] + decimal(pid as nat), decimal(pid as nat)]
    } else {
        seq![decimal(pid as nat)]
    }
}

/// The kill targets to try, in order, for a signal to `pid`; an unsafe pid
/// gets none and is refused.
pub fn delivery_targets(pid: u32, scope: SignalScope) -> (r: Result<Vec<String>, SignalError>)
    ensures
        !signalable(pid) <==> r is Err,
        r matches Err(SignalError::Delivery { pid: p, reason }) ==> p == pid && reason@
            == UNSAFE_PID_REASON@,
        r matches Ok(targets) ==> targets.deep_view() == target_order(pid, scope),
{
    if !is_signalable(pid) {
        return Err(SignalError::Delivery { pid, reason: UNSAFE_PID_REASON.to_string() });
    }
    let mut targets: Vec<String> = Vec::new();
    if scope.reaches_the_group() {
        targets.push(group_target(pid));
    }
    targets.push(crate::text::decimal_string(pid as u64));
    assert(targets.deep_view() =~= target_order(pid, scope));
    Ok(targets)
}

/// The next move in delivering a signal: run the kill program on the target
/// at `index` of the order, or give `answer` as the outcome.
#[derive(Debug)]
pub enum DeliveryStep {
    Send { index: usize, target: String },
    Answer(Result<(), SignalError>),
}

/// What follows in delivering a signal to `pid`, given the last try: `None`
/// before any, else the index of the target tried and its answer. An unsafe
/// pid is refused before anything is sent; the first target comes first; a
/// try that succeeded ends the delivery with success; a failed try moves on
/// to the next target, and after the last target its failure is the answer.
pub fn delivery_step(pid: u32, scope: SignalScope, last: Option<(usize, Result<(), SignalError>)>) -> (r:
    DeliveryStep)
    ensures
        !signalable(pid) ==> (r matches DeliveryStep::Answer(
            Err(SignalError::Delivery { pid: p, reason }),
        ) && p == pid && reason@ == UNSAFE_PID_REASON@),
        signalable(pid) ==> match last {
            None => (r matches DeliveryStep::Send { index, target } && index == 0 && target@
                == target_order(pid, scope)[0]),
            Some((k, answer)) => match answer {
                Ok(_) => r matches DeliveryStep::Answer(Ok(_)),
                Err(_) => if k + 1 < target_order(pid, scope).len() {
                    (r matches DeliveryStep::Send { index, target } && index == k + 1 && target@
                        == target_order(pid, scope)[k + 1])
                } else {
                    r == DeliveryStep::Answer(answer)
                },
            },
        },
{
    let targets = match delivery_targets(pid, scope) {
        Ok(targets) => targets,
        Err(refused) => {
            return DeliveryStep::Answer(Err(refused));
        },
    };
    proof {
        assert(target_order(pid, scope).len() >= 1);
        assert(targets.deep_view().len() == targets@.len());
        assert(targets.deep_view()[0] == targets@[0]@);
    }
    match last {
        None => {
            let target = targets[0].clone();
            DeliveryStep::Send { index: 0, target }
        },
        Some((_, Ok(()))) => DeliveryStep::Answer(Ok(())),
        Some((k, Err(failure))) => {
            if k < targets.len() - 1 {
                let next = k + 1;
                proof {
                    assert(targets.deep_view()[next as int] == targets@[next as int]@);
                }
                let target = targets[next].clone();
                DeliveryStep::Send { index: next, target }
            } else {
                DeliveryStep::Answer(Err(failure))
            }
        },
    }
}

/// The answer to one run of the kill program that finished: delivered when it
/// succeeded, else refused with what it wrote or its exit status.
pub fn signal_outcome(pid: u32, success: bool, stderr: &str, code: Option<i32>) -> (r: Result<
    (),
    SignalError,
>)
    ensures
        success <==> r is Ok,
        r matches Err(SignalError::Delivery { pid: p, reason }) ==> p == pid && reason@
            == refusal_text(
            stderr@,
            match code {
                Some(c) => c,
                None => UNKNOWN_EXIT_CODE,
            },
        ),
{
    if success {
        return Ok(());
    }
    let status = exit_code_of(code);
    Err(SignalError::Delivery { pid, reason: describe_refusal(stderr, status) })
}

impl KillSignaler {
    pub closed spec fn program_view(&self) -> Seq<char> {
        self.program@
    }

    pub closed spec fn stop_signal_view(&self) -> Seq<char> {
        self.stop_signal@
    }

    pub closed spec fn timeout_view(&self) -> u64 {
        self.timeout_ms
    }

    pub fn new(program: String, stop_signal: String, timeout_ms: u64) -> (r: KillSignaler)
        ensures
            r.program_view() == program@,
            r.stop_signal_view() == stop_signal@,
            r.timeout_view() == timeout_ms,
    {
        KillSignaler { program, stop_signal, timeout_ms }
    }

    /// The signaler of this host: the kill program, whatever Windows tool
    /// path was configured.
    pub fn with_stop_signal(stop_signal: String, timeout_ms: u64, taskkill_path: &str) -> (r:
        KillSignaler)
        ensures
            r.program_view() == KILL_PROGRAM@,
            r.stop_signal_view() == stop_signal@,
            r.timeout_view() == timeout_ms,
    {
        KillSignaler::new(KILL_PROGRAM.to_string(), stop_signal, timeout_ms)
    }

    /// The program that delivers the signals.
    pub fn program(&self) -> (r: &str)
        ensures
            r@ == self.program_view(),
    {
        self.program.as_str()
    }

    /// The signal that asks a service to stop.
    pub fn stop_signal(&self) -> (r: &str)
        ensures
            r@ == self.stop_signal_view(),
    {
        self.stop_signal.as_str()
    }

    /// How long one run of the kill program may take.
    pub fn timeout_ms(&self) -> (r: u64)
        ensures
            r == self.timeout_view(),
    {
        self.timeout_ms
    }

    /// The refusal when the kill program did not answer in time.
    pub fn stalled(&self, pid: u32) -> (r: SignalError)
        ensures
            r matches SignalError::Delivery { pid: p, reason } && p == pid && reason@
                == self.program_view() + " did not answer within "@ + decimal(
                self.timeout_view() as nat,
            ) + "ms"@,
    {
        let mut out = chars_of(&self.program);
        push_str(&mut out, " did not answer within ");
        push_decimal(&mut out, self.timeout_ms);
        push_str(&mut out, "ms");
        SignalError::Delivery { pid, reason: string_of(&out) }
    }
}

} // verus!
