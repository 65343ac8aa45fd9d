use vstd::prelude::*;

use crate::text::{chars_of, is_ascii_alnum, is_ascii_alnum_exec, is_ascii_digit};

verus! {

/// How much of the host a sandboxed service may write.
#[derive(Clone, Copy, Debug, PartialEq, Eq, Structural)]
pub enum SandboxMode {
    ReadOnly,
    WorkspaceWrite,
    DangerFullAccess,
}

/// How much of the host a sandboxed service may read.
#[derive(Clone, Copy, Debug, PartialEq, Eq, Structural)]
pub enum ReadScope {
    Full,
    Minimal,
}

pub open spec fn sandbox_mode_name(m: SandboxMode) -> Seq<char> {
    match m {
        SandboxMode::ReadOnly => seq!['r', 'e', 'a', 'd', '-', 'o', 'n', 'l', 'y'],
        SandboxMode::WorkspaceWrite => seq![
            'w', 'o', 'r', 'k', 's', 'p', 'a', 'c', 'e', '-', 'w', 'r', 'i', 't', 'e'
        ],
        SandboxMode::DangerFullAccess => seq![
            'd', 'a', 'n', 'g', 'e', 'r', '-', 'f', 'u', 'l', 'l', '-', 'a', 'c', 'c', 'e', 's', 's'
        ],
    }
}

pub open spec fn read_scope_name(r: ReadScope) -> Seq<char> {
    match r {
        ReadScope::Full => seq!['f', 'u', 'l', 'l'],
        ReadScope::Minimal => seq!['m', 'i', 'n', 'i', 'm', 'a', 'l'],
    }
}

/// The mode a name stands for.
pub open spec fn sandbox_mode_of(raw: Seq<char>) -> Option<SandboxMode> {
    if raw == sandbox_mode_name(SandboxMode::ReadOnly) {
        Some(SandboxMode::ReadOnly)
    } else if raw == sandbox_mode_name(SandboxMode::WorkspaceWrite) {
        Some(SandboxMode::WorkspaceWrite)
    } else if raw == sandbox_mode_name(SandboxMode::DangerFullAccess) {
        Some(SandboxMode::DangerFullAccess)
    } else {
        None
    }
}

/// The read scope a name stands for.
pub open spec fn read_scope_of(raw: Seq<char>) -> Option<ReadScope> {
    if raw == read_scope_name(ReadScope::Full) {
        Some(ReadScope::Full)
    } else if raw == read_scope_name(ReadScope::Minimal) {
        Some(ReadScope::Minimal)
    } else {
        None
    }
}

/// Whether `a` holds the characters of the literal `lit`.
pub fn is_literal(a: &[char], lit: &str) -> (r: bool)
    ensures
        r == (a@ == lit@),
{
    let l = chars_of(lit);
    crate::text::same_chars(a, &l)
}

impl SandboxMode {
    pub fn parse(raw: &str) -> (r: Option<SandboxMode>)
        ensures
            r == sandbox_mode_of(raw@),
    {
        let v = chars_of(raw);
        proof {
            reveal_strlit("read-only");
            reveal_strlit("workspace-write");
            reveal_strlit("danger-full-access");
        }
        if is_literal(&v, "read-only") {
            assert("read-only"@ == sandbox_mode_name(SandboxMode::ReadOnly));
            Some(SandboxMode::ReadOnly)
        } else if is_literal(&v, "workspace-write") {
            assert("workspace-write"@ == sandbox_mode_name(SandboxMode::WorkspaceWrite));
            Some(SandboxMode::WorkspaceWrite)
        } else if is_literal(&v, "danger-full-access") {
            assert("danger-full-access"@ == sandbox_mode_name(SandboxMode::DangerFullAccess));
            Some(SandboxMode::DangerFullAccess)
        } else {
            assert("read-only"@ == sandbox_mode_name(SandboxMode::ReadOnly));
            assert("workspace-write"@ == sandbox_mode_name(SandboxMode::WorkspaceWrite));
            assert("danger-full-access"@ == sandbox_mode_name(SandboxMode::DangerFullAccess));
            None
        }
    }

    pub fn as_str(&self) -> (r: &'static str)
        ensures
            r@ == sandbox_mode_name(*self),
    {
        proof {
            reveal_strlit("read-only");
            reveal_strlit("workspace-write");
            reveal_strlit("danger-full-access");
        }
        match self {
            SandboxMode::ReadOnly => "read-only",
            SandboxMode::WorkspaceWrite => "workspace-write",
            SandboxMode::DangerFullAccess => "danger-full-access",
        }
    }
}

impl ReadScope {
    pub fn parse(raw: &str) -> (r: Option<ReadScope>)
        ensures
            r == read_scope_of(raw@),
    {
        let v = chars_of(raw);
        proof {
            reveal_strlit("full");
            reveal_strlit("minimal");
        }
        if is_literal(&v, "full") {
            assert("full"@ == read_scope_name(ReadScope::Full));
            Some(ReadScope::Full)
        } else if is_literal(&v, "minimal") {
            assert("minimal"@ == read_scope_name(ReadScope::Minimal));
            Some(ReadScope::Minimal)
        } else {
            assert("full"@ == read_scope_name(ReadScope::Full));
            assert("minimal"@ == read_scope_name(ReadScope::Minimal));
            None
        }
    }

    pub fn as_str(&self) -> (r: &'static str)
        ensures
            r@ == read_scope_name(*self),
    {
        proof {
            reveal_strlit("full");
            reveal_strlit("minimal");
        }
        match self {
            ReadScope::Full => "full",
            ReadScope::Minimal => "minimal",
        }
    }
}

/// A letter a name of pm3's (an app, a service label, a version) may use:
/// an ASCII letter or digit, `-`, `_` or `.`.
pub open spec fn is_name_letter(c: char) -> bool {
    is_ascii_alnum(c) || c == '-' || c == '_' || c == '.'
}

pub fn is_name_letter_exec(c: char) -> (r: bool)
    ensures
        r == is_name_letter(c),
{
    is_ascii_alnum_exec(c) || c == '-' || c == '_' || c == '.'
}

/// A usable app name: not empty, not starting with `.`, and made of name letters.
pub open spec fn is_app_name(name: Seq<char>) -> bool {
    &&& name.len() > 0
    &&& name[0] != '.'
    &&& forall|i: int| 0 <= i < name.len() ==> is_name_letter(#[trigger] name[i])
}

/// Why an app's declaration cannot be used.
#[derive(Debug)]
pub enum SpecError {
    InvalidName { name: String },
}

/// Checks that `name` can name an app.
pub fn validate_app_name(name: &str) -> (r: Result<(), SpecError>)
    ensures
        r is Ok <==> is_app_name(name@),
        r matches Err(SpecError::InvalidName { name: shown }) ==> shown@ == name@,
{
    let v = chars_of(name);
    if v.len() == 0 || v[0] == '.' {
        return Err(SpecError::InvalidName { name: name.to_string() });
    }
    let mut i: usize = 0;
    while i < v.len()
        invariant
            i <= v.len(),
            v@ == name@,
            forall|k: int| 0 <= k < i ==> is_name_letter(#[trigger] v@[k]),
        decreases v.len() - i,
    {
        if !is_name_letter_exec(v[i]) {
            return Err(SpecError::InvalidName { name: name.to_string() });
        }
        i = i + 1;
    }
    Ok(())
}

/// An app picked out by its numeric id or by its name.
#[derive(Debug)]
pub enum AppSelector {
    Id(u32),
    Name(String),
}

/// The numeric value of a non-empty run of ASCII digits.
pub open spec fn digits_value(d: Seq<char>) -> nat
    decreases d.len(),
{
    if d.len() == 0 {
        0
    } else {
        digits_value(d.drop_last()) * 10 + (d.last() as u32 - '0' as u32) as nat
    }
}

pub open spec fn all_digits(d: Seq<char>) -> bool {
    forall|i: int| 0 <= i < d.len() ==> is_ascii_digit(#[trigger] d[i])
}

/// The number `str::parse` reads from `s` for an unsigned type bounded by
/// `max`: optional `+`, then at least one ASCII digit, at most `max`.
pub open spec fn parse_unsigned(s: Seq<char>, max: nat) -> Option<nat> {
    let d = if s.len() > 1 && s[0] == '+' {
        s.skip(1)
    } else {
        s
    };
    if d.len() > 0 && all_digits(d) && digits_value(d) <= max {
        Some(digits_value(d))
    } else {
        None
    }
}

/// Reads an unsigned number no larger than `max`.
pub fn parse_unsigned_exec(s: &[char], max: u64) -> (r: Option<u64>)
    ensures
        r matches Some(n) ==> parse_unsigned(s@, max as nat) == Some(n as nat),
        r is None ==> parse_unsigned(s@, max as nat) is None,
{
    let start: usize = if s.len() > 1 && s[0] == '+' {
        1
    } else {
        0
    };
    let ghost d = s@.skip(start as int);
    assert(d == if s@.len() > 1 && s@[0] == '+' {
        s@.skip(1)
    } else {
        s@
    });
    if start == s.len() {
        return None;
    }
    let mut value: u64 = 0;
    let mut i: usize = start;
    while i < s.len()
        invariant
            start <= i <= s.len(),
            d == s@.skip(start as int),
            d == if s@.len() > 1 && s@[0] == '+' {
                s@.skip(1)
            } else {
                s@
            },
            value == digits_value(s@.subrange(start as int, i as int)),
            value <= max,
            all_digits(s@.subrange(start as int, i as int)),
        decreases s.len() - i,
    {
        let c = s[i];
        let ghost prefix = s@.subrange(start as int, i as int);
        let ghost next = s@.subrange(start as int, i + 1);
        assert(next.drop_last() == prefix);
        assert(next.last() == c);
        if !('0' <= c && c <= '9') {
            assert(!all_digits(d)) by {
                assert(d[i - start] == c);
            }
            return None;
        }
        let digit = (c as u32 - '0' as u32) as u64;
        if digit > max || value > (max - digit) / 10 {
            proof {
                assert(digits_value(next) == value * 10 + digit);
                if digit <= max {
                    assert(value * 10 + digit > max) by (nonlinear_arith)
                        requires
                            value > (max - digit) / 10,
                            digit <= max,
                    ;
                }
                assert(d.take((i + 1 - start) as int) == next);
                if all_digits(d) {
                    lemma_digits_value_grows(d, (i + 1 - start) as int);
                }
            }
            return None;
        }
        value = value * 10 + digit;
        i = i + 1;
    }
    assert(s@.subrange(start as int, s.len() as int) == d);
    Some(value)
}

/// A longer run of digits is worth at least as much as a prefix of it.
pub proof fn lemma_digits_value_grows(d: Seq<char>, k: int)
    requires
        0 <= k <= d.len(),
        all_digits(d),
    ensures
        digits_value(d.take(k)) <= digits_value(d),
    decreases d.len() - k,
{
    if k < d.len() {
        lemma_digits_value_grows(d.drop_last(), if k < d.len() { k } else { k - 1 });
        assert(d.drop_last().take(k) == d.take(k));
    } else {
        assert(d.take(k) == d);
    }
}

impl AppSelector {
    /// A selector made of digits that fit a `u32` is an id; anything else is a name.
    pub fn parse(raw: &str) -> (r: AppSelector)
        ensures
            match r {
                AppSelector::Id(id) => parse_unsigned(raw@, u32::MAX as nat) == Some(id as nat),
                AppSelector::Name(name) => parse_unsigned(raw@, u32::MAX as nat) is None && name@
                    == raw@,
            },
    {
        let v = chars_of(raw);
        match parse_unsigned_exec(&v, u32::MAX as u64) {
            Some(n) => AppSelector::Id(n as u32),
            None => AppSelector::Name(raw.to_string()),
        }
    }
}

/// The signals a service may be stopped with.
pub open spec fn valid_signals() -> Seq<Seq<char>> {
    seq![
        seq!['T', 'E', 'R', 'M'],
        seq!['I', 'N', 'T'],
        seq!['Q', 'U', 'I', 'T'],
        seq!['H', 'U', 'P'],
        seq!['U', 'S', 'R', '1'],
        seq!['U', 'S', 'R', '2'],
    ]
}

/// Whether `signal` is one a service may be stopped with.
pub fn is_valid_signal(signal: &str) -> (r: bool)
    ensures
        r == valid_signals().contains(signal@),
{
    let v = chars_of(signal);
    proof {
        reveal_strlit("TERM");
        reveal_strlit("INT");
        reveal_strlit("QUIT");
        reveal_strlit("HUP");
        reveal_strlit("USR1");
        reveal_strlit("USR2");
    }
    let r = is_literal(&v, "TERM") || is_literal(&v, "INT") || is_literal(&v, "QUIT")
        || is_literal(&v, "HUP") || is_literal(&v, "USR1") || is_literal(&v, "USR2");
    proof {
        let sigs = valid_signals();
        assert(sigs[0] == "TERM"@);
        assert(sigs[1] == "INT"@);
        assert(sigs[2] == "QUIT"@);
        assert(sigs[3] == "HUP"@);
        assert(sigs[4] == "USR1"@);
        assert(sigs[5] == "USR2"@);
        if sigs.contains(signal@) {
            let i = choose|i: int| 0 <= i < sigs.len() && sigs[i] == signal@;
            assert(r);
        }
    }
    r
}

} // verus!

verus! {

/// Where the environment values of a service came from.
#[derive(Clone, Copy, Debug, PartialEq, Eq, Structural)]
pub enum EnvOrigin {
    Plain,
    Encrypted,
    Sealed,
}

impl EnvOrigin {
    pub open spec fn name(self) -> Seq<char> {
        match self {
            EnvOrigin::Plain => "plain"@,
            EnvOrigin::Encrypted => "encrypted"@,
            EnvOrigin::Sealed => "sealed"@,
        }
    }

    /// The name of the origin.
    pub fn as_str(&self) -> (r: &'static str)
        ensures
            r@ == self.name(),
    {
        match self {
            EnvOrigin::Plain => "plain",
            EnvOrigin::Encrypted => "encrypted",
            EnvOrigin::Sealed => "sealed",
        }
    }
}

/// One environment value of a service as it may be shown, with the name of
/// the scope that declared it.
#[derive(Debug)]
pub struct EnvDisplay {
    pub key: String,
    pub value: String,
    pub scope: String,
}

/// What the daemon knows of one managed service; `status` holds the name of
/// its state.
#[derive(Debug)]
pub struct ProcessView {
    pub pm_id: u32,
    pub name: String,
    pub pid: Option<u32>,
    pub status: String,
    pub restart_time: u32,
    pub unstable_restarts: u32,
    pub max_restarts: u32,
    pub autorestart: bool,
    pub uptime_ms: Option<u64>,
    pub next_fire_ms: Option<u64>,
    pub schedule: Option<String>,
    pub sandbox_mode: String,
    pub sandbox_read: String,
    pub sandbox_network: bool,
    pub env_origin: EnvOrigin,
    pub env_declared: usize,
    pub env: Vec<EnvDisplay>,
    pub script: String,
    pub args: Vec<String>,
    pub cwd: String,
    pub depends_on: Vec<String>,
    pub writable_roots: Vec<String>,
    pub rss_kib: Option<u64>,
    pub cpu_tenths: Option<u32>,
}

/// How a service came to be running after a start request.
#[derive(Clone, Copy, Debug, PartialEq, Eq, Structural)]
pub enum StartKind {
    Spawned,
    AlreadyRunning,
    Adopted,
    Scheduled,
    Deferred,
}

/// What a start request did to one service.
#[derive(Debug)]
pub struct StartOutcome {
    pub pm_id: u32,
    pub name: String,
    pub pid: Option<u32>,
    pub kind: StartKind,
}

/// The daemon's answer to a supervision request.
#[derive(Debug)]
pub enum SupervisionReply {
    Started {
        outcomes: Vec<StartOutcome>,
        refused: Vec<String>,
        reason: Option<String>,
        unsaved: Option<String>,
    },
    Listed(Vec<ProcessView>),
    Described(ProcessView),
    Stopped { name: String },
    Restarted { name: String },
    Deleted { name: String },
    Reset { name: String },
    Signalled { name: String, signal: String },
    StoppedAll { names: Vec<String> },
    RestartedAll { names: Vec<String> },
    DeletedAll { names: Vec<String> },
    ResetAll { names: Vec<String> },
}


/// The resident memory and CPU share of a process or of its group.
#[derive(Clone, Copy, Debug, PartialEq, Eq, Structural)]
pub struct ResourceSample {
    pub rss_kib: u64,
    pub cpu_tenths: u32,
}

/// What a probe learned of a process: alive with the start token it
/// reported, gone, or not readable.
#[derive(Debug)]
pub enum Liveness {
    Alive(String),
    Gone,
    Unreadable,
}

/// Why a signal was not delivered.
#[derive(Debug)]
pub enum SignalError {
    Delivery { pid: u32, reason: String },
}

/// How far a signal reaches: the process alone, or its whole group.
#[derive(Clone, Copy, Debug, PartialEq, Eq, Structural)]
pub enum SignalScope {
    Process,
    Group,
}

impl SignalScope {
    /// Whether the signal is meant for the whole process group.
    pub fn reaches_the_group(self) -> (r: bool)
        ensures
            r == (self == SignalScope::Group),
    {
        match self {
            SignalScope::Process => false,
            SignalScope::Group => true,
        }
    }
}

} // verus!
