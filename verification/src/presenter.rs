use chrono::TimeZone;
use vstd::prelude::*;

use crate::domain::{is_literal, EnvOrigin, StartKind, StartOutcome, SupervisionReply};
use crate::describe::{describe_text, render_describe, stamp_fits};
use crate::http::ProcessViewDto;
use crate::table::{clock_fits, listed, render_table, Listing};
use crate::text::{
    chars_of, decimal, join, join_exec, push_all, push_decimal, push_str,
    string_of, views,
};

verus! {

pub const MISSING: &'static str = "-";
pub const NETWORK_SUFFIX: &'static str = "+net";
pub const DAEMON_NOT_RUNNING: &'static str = "the pm3 daemon is not running";
pub const NOTHING_STARTED: &'static str = "no apps were started";
pub const NOTHING_TO_STOP: &'static str = "no services were running";
pub const EMPTY_NOTICE: &'static str = "no apps are managed by pm3";

pub open spec fn missing() -> Seq<char> {
    seq!['-']
}

// ---------------------------------------------------------------------------
// Fields of a listing.
// ---------------------------------------------------------------------------

/// A memory size: kibibytes below one mebibyte, else mebibytes with one decimal.
pub open spec fn memory_text(rss_kib: Option<u64>) -> Seq<char> {
    match rss_kib {
        None => missing(),
        Some(kib) => if kib >= 1024 {
            let scaled: nat = if kib * 10 > u64::MAX {
                u64::MAX as nat
            } else {
                (kib * 10) as nat
            };
            let tenths = scaled / 1024;
            decimal(tenths / 10) + seq!['.'] + decimal(tenths % 10) + seq!['M']
        } else {
            decimal(kib as nat) + seq!['K']
        },
    }
}

pub fn format_memory(rss_kib: Option<u64>) -> (r: String)
    ensures
        r@ == memory_text(rss_kib),
{
    let mut out: Vec<char> = Vec::new();
    match rss_kib {
        None => {
            out.push('-');
        },
        Some(kib) => {
            if kib >= 1024 {
                let scaled: u64 = if kib > u64::MAX / 10 {
                    u64::MAX
                } else {
                    kib * 10
                };
                let tenths = scaled / 1024;
                push_decimal(&mut out, tenths / 10);
                out.push('.');
                push_decimal(&mut out, tenths % 10);
                out.push('M');
            } else {
                push_decimal(&mut out, kib);
                out.push('K');
            }
        },
    }
    assert(out@ =~= memory_text(rss_kib));
    string_of(&out)
}

/// A CPU share in tenths of a percent, with one decimal.
pub open spec fn cpu_text(tenths: Option<u32>) -> Seq<char> {
    match tenths {
        None => missing(),
        Some(t) => decimal((t / 10) as nat) + seq!['.'] + decimal((t % 10) as nat) + seq!['%'],
    }
}

pub fn format_cpu(tenths: Option<u32>) -> (r: String)
    ensures
        r@ == cpu_text(tenths),
{
    let mut out: Vec<char> = Vec::new();
    match tenths {
        None => {
            out.push('-');
        },
        Some(t) => {
            push_decimal(&mut out, (t / 10) as u64);
            out.push('.');
            push_decimal(&mut out, (t % 10) as u64);
            out.push('%');
        },
    }
    assert(out@ =~= cpu_text(tenths));
    string_of(&out)
}

pub open spec fn pid_text(pid: Option<u32>) -> Seq<char> {
    match pid {
        None => missing(),
        Some(p) => decimal(p as nat),
    }
}

pub fn format_pid(pid: Option<u32>) -> (r: String)
    ensures
        r@ == pid_text(pid),
{
    let mut out: Vec<char> = Vec::new();
    match pid {
        None => {
            out.push('-');
        },
        Some(p) => {
            push_decimal(&mut out, p as u64);
        },
    }
    assert(out@ =~= pid_text(pid));
    string_of(&out)
}

/// An uptime in its largest whole unit: milliseconds under a second, then
/// seconds, minutes, hours and days.
pub open spec fn uptime_text(uptime_ms: Option<u64>) -> Seq<char> {
    match uptime_ms {
        None => missing(),
        Some(ms) => {
            let seconds = ms / 1000;
            let minutes = seconds / 60;
            let hours = minutes / 60;
            if seconds == 0 {
                decimal(ms as nat) + seq!['m', 's']
            } else if seconds < 60 {
                decimal(seconds as nat) + seq!['s']
            } else if minutes < 60 {
                decimal(minutes as nat) + seq!['m']
            } else if hours < 24 {
                decimal(hours as nat) + seq!['h']
            } else {
                decimal((hours / 24) as nat) + seq!['d']
            }
        },
    }
}

pub fn format_uptime(uptime_ms: Option<u64>) -> (r: String)
    ensures
        r@ == uptime_text(uptime_ms),
{
    let mut out: Vec<char> = Vec::new();
    match uptime_ms {
        None => {
            out.push('-');
        },
        Some(ms) => {
            let seconds = ms / 1000;
            if seconds == 0 {
                push_decimal(&mut out, ms);
                out.push('m');
                out.push('s');
            } else if seconds < 60 {
                push_decimal(&mut out, seconds);
                out.push('s');
            } else {
                let minutes = seconds / 60;
                if minutes < 60 {
                    push_decimal(&mut out, minutes);
                    out.push('m');
                } else {
                    let hours = minutes / 60;
                    if hours < 24 {
                        push_decimal(&mut out, hours);
                        out.push('h');
                    } else {
                        push_decimal(&mut out, hours / 24);
                        out.push('d');
                    }
                }
            }
        },
    }
    assert(out@ =~= uptime_text(uptime_ms));
    string_of(&out)
}

/// The last instant, in milliseconds since the epoch, before the year 9999
/// begins in UTC: up to it, every local time has a four-digit year.
pub const FOUR_DIGIT_YEAR_MAX_MS: i64 = 253_370_764_799_999;

pub open spec fn is_digit_at(t: Seq<char>, i: int) -> bool {
    crate::text::is_ascii_digit(t[i])
}

/// `hh:mm`: two digits, a colon, two digits.
pub open spec fn clock_shape(t: Seq<char>) -> bool {
    &&& t.len() == 5
    &&& t[2] == ':'
    &&& is_digit_at(t, 0) && is_digit_at(t, 1) && is_digit_at(t, 3) && is_digit_at(t, 4)
}

/// `+hh:mm` or `-hh:mm`: an offset from UTC to the minute.
pub open spec fn offset_shape(t: Seq<char>) -> bool {
    &&& t.len() == 6
    &&& t[0] == '+' || t[0] == '-'
    &&& t[3] == ':'
    &&& is_digit_at(t, 1) && is_digit_at(t, 2) && is_digit_at(t, 4) && is_digit_at(t, 5)
}

/// `YYYY-mm-dd HH:MM:SS UTC+hh:mm`.
pub open spec fn stamp_shape(t: Seq<char>) -> bool {
    &&& t.len() == 29
    &&& forall|i: int|
        0 <= i < 19 && i != 4 && i != 7 && i != 10 && i != 13 && i != 16 ==> #[trigger] is_digit_at(
            t,
            i,
        )
    &&& t[4] == '-' && t[7] == '-' && t[10] == ' ' && t[13] == ':' && t[16] == ':'
    &&& t.subrange(19, 23) == seq![' ', 'U', 'T', 'C']
    &&& offset_shape(t.subrange(23, 29))
}

/// Calls `chrono::Local::timestamp_millis_opt` and formats a single local
/// time with `%H:%M`. Claimed, from chrono's source: `timestamp_millis_opt`
/// gives a single local time whenever the instant lies in chrono's range
/// (which holds every instant from the epoch to the year 9999), and `%H:%M`
/// writes two zero-padded numbers around a colon. Which hour and minute come
/// out depends on the host's time zone and is not claimed. chrono panics when
/// the host's zone data cannot give an offset for the instant; nothing the
/// caller passes can rule that out.
#[verifier::external_body]
fn local_clock_text(millis: i64) -> (r: Option<String>)
    ensures
        0 <= millis <= FOUR_DIGIT_YEAR_MAX_MS ==> r is Some,
        r matches Some(t) ==> clock_shape(t@),
{
    match chrono::Local.timestamp_millis_opt(millis).single() {
        Some(moment) => Some(moment.format("%H:%M").to_string()),
        None => None,
    }
}

/// Calls `chrono::Local::timestamp_millis_opt` and formats a single local
/// time with `%Y-%m-%d %H:%M:%S UTC%:z`. Claimed, from chrono's source: from
/// the epoch to the year 9999 there is a single local time, its year has four
/// digits and every other field two, and `%:z` writes the offset as `+hh:mm`
/// or `-hh:mm`. Which date, time and offset come out depends on the host's
/// time zone and is not claimed. chrono panics when the host's zone data
/// cannot give an offset for the instant; nothing the caller passes can rule
/// that out.
#[verifier::external_body]
fn local_stamp_text(millis: i64) -> (r: Option<String>)
    ensures
        0 <= millis <= FOUR_DIGIT_YEAR_MAX_MS ==> r is Some,
        0 <= millis <= FOUR_DIGIT_YEAR_MAX_MS ==> stamp_shape(r.unwrap()@),
{
    match chrono::Local.timestamp_millis_opt(millis).single() {
        Some(moment) => Some(moment.format("%Y-%m-%d %H:%M:%S UTC%:z").to_string()),
        None => None,
    }
}

/// An instant as the local hour and minute; `-` when there is none or the
/// host cannot place it.
pub fn format_clock(at_ms: Option<u64>) -> (r: String)
    ensures
        at_ms is None ==> r@ == missing(),
        at_ms matches Some(ms) && ms > i64::MAX ==> r@ == missing(),
        at_ms matches Some(ms) && ms <= FOUR_DIGIT_YEAR_MAX_MS ==> clock_shape(r@),
        r@ == missing() || clock_shape(r@),
{
    proof {
        reveal_strlit("-");
    }
    let Some(at) = at_ms else {
        return MISSING.to_string();
    };
    if at > i64::MAX as u64 {
        return MISSING.to_string();
    }
    match local_clock_text(at as i64) {
        Some(text) => text,
        None => MISSING.to_string(),
    }
}

/// An instant as a full local date and time with its offset; `-` when there
/// is none or the host cannot place it.
pub fn format_stamp(at_ms: Option<u64>) -> (r: String)
    ensures
        at_ms is None ==> r@ == missing(),
        at_ms matches Some(ms) && ms > i64::MAX ==> r@ == missing(),
        at_ms matches Some(ms) && ms <= FOUR_DIGIT_YEAR_MAX_MS ==> stamp_shape(r@),
{
    proof {
        reveal_strlit("-");
    }
    let Some(at) = at_ms else {
        return MISSING.to_string();
    };
    if at > i64::MAX as u64 {
        return MISSING.to_string();
    }
    match local_stamp_text(at as i64) {
        Some(text) => text,
        None => MISSING.to_string(),
    }
}

pub open spec fn sandbox_text(mode: Seq<char>, network: bool) -> Seq<char> {
    if network {
        mode + NETWORK_SUFFIX@
    } else {
        mode
    }
}

/// A sandbox mode, with `+net` when the network is open.
pub fn format_sandbox(mode: &str, network: bool) -> (r: String)
    ensures
        r@ == sandbox_text(mode@, network),
{
    let mut out = chars_of(mode);
    if network {
        push_str(&mut out, NETWORK_SUFFIX);
    }
    string_of(&out)
}

pub open spec fn origin_name(origin: EnvOrigin) -> Seq<char> {
    match origin {
        EnvOrigin::Plain => "plain"@,
        EnvOrigin::Encrypted => "encrypted"@,
        EnvOrigin::Sealed => "encrypted, not opened"@,
    }
}

pub open spec fn counted_noun(declared: usize) -> Seq<char> {
    if declared == 1 {
        "value"@
    } else {
        "values"@
    }
}

/// Where a service's environment came from and how many values it declares.
pub open spec fn env_origin_text(origin: EnvOrigin, declared: usize) -> Seq<char> {
    origin_name(origin) + seq![' ', '('] + decimal(declared as nat) + seq![' '] + counted_noun(
        declared,
    ) + seq![')']
}

pub fn format_env_origin(origin: EnvOrigin, declared: usize) -> (r: String)
    ensures
        r@ == env_origin_text(origin, declared),
{
    let mut out: Vec<char> = Vec::new();
    match origin {
        EnvOrigin::Plain => push_str(&mut out, "plain"),
        EnvOrigin::Encrypted => push_str(&mut out, "encrypted"),
        EnvOrigin::Sealed => push_str(&mut out, "encrypted, not opened"),
    }
    out.push(' ');
    out.push('(');
    push_decimal(&mut out, declared as u64);
    out.push(' ');
    if declared == 1 {
        push_str(&mut out, "value");
    } else {
        push_str(&mut out, "values");
    }
    out.push(')');
    assert(out@ =~= env_origin_text(origin, declared));
    string_of(&out)
}

pub open spec fn list_text(items: Seq<Seq<char>>) -> Seq<char> {
    if items.len() == 0 {
        missing()
    } else {
        join(items, seq![',', ' '])
    }
}

/// A list of names, or `-` when there are none.
pub fn format_list(items: &Vec<String>) -> (r: String)
    ensures
        r@ == list_text(items.deep_view()),
{
    if items.len() == 0 {
        proof {
            reveal_strlit("-");
        }
        return MISSING.to_string();
    }
    let parts = chars_lists(items);
    let sep = [',', ' '];
    let joined = join_exec(&parts, &sep);
    string_of(&joined)
}

/// The characters of each string of a list.
pub fn chars_lists(items: &Vec<String>) -> (r: Vec<Vec<char>>)
    ensures
        views(r@) == items.deep_view(),
{
    let mut r: Vec<Vec<char>> = Vec::new();
    let mut i: usize = 0;
    while i < items.len()
        invariant
            i <= items.len(),
            views(r@) == items.deep_view().take(i as int),
        decreases items.len() - i,
    {
        let c = chars_of(&items[i]);
        let ghost cv = c@;
        let ghost before = views(r@);
        r.push(c);
        assert(views(r@) =~= before.push(cv));
        i = i + 1;
        assert(items.deep_view().take(i as int) =~= items.deep_view().take((i - 1) as int).push(cv));
    }
    assert(items.deep_view().take(items.len() as int) =~= items.deep_view());
    r
}

/// `n` spaces.
pub open spec fn spaces(n: nat) -> Seq<char> {
    Seq::new(n, |i: int| ' ')
}

/// A cell padded with spaces on the right to `width` characters.
pub open spec fn pad_text(cell: Seq<char>, width: nat) -> Seq<char> {
    if cell.len() < width {
        cell + spaces((width - cell.len()) as nat)
    } else {
        cell
    }
}

pub fn pad_chars(cell: &[char], width: usize) -> (r: Vec<char>)
    ensures
        r@ == pad_text(cell@, width as nat),
{
    let mut out: Vec<char> = Vec::new();
    push_all(&mut out, cell);
    let mut n: usize = cell.len();
    assert(out@ =~= cell@ + spaces(0));
    while n < width
        invariant
            n >= cell.len(),
            n == cell.len() || n <= width,
            out@ == cell@ + spaces((n - cell.len()) as nat),
        decreases width - n,
    {
        out.push(' ');
        n = n + 1;
        assert(out@ =~= cell@ + spaces((n - cell.len()) as nat));
    }
    if cell.len() >= width {
        assert(out@ =~= cell@);
    } else {
        assert(n == width);
    }
    out
}

/// A cell padded with spaces on the right to `width` characters.
pub fn pad(cell: &str, width: usize) -> (r: String)
    ensures
        r@ == pad_text(cell@, width as nat),
{
    let c = chars_of(cell);
    let padded = pad_chars(&c, width);
    string_of(&padded)
}

/// The largest of the numbers, or 0.
pub open spec fn max_of(cells: Seq<usize>) -> usize
    decreases cells.len(),
{
    if cells.len() == 0 {
        0
    } else {
        let rest = max_of(cells.drop_last());
        if cells.last() > rest {
            cells.last()
        } else {
            rest
        }
    }
}

pub fn widest(cells: &Vec<usize>) -> (r: usize)
    ensures
        r == max_of(cells@),
        forall|i: int| 0 <= i < cells.len() ==> cells[i] <= r,
{
    let mut best: usize = 0;
    let mut i: usize = 0;
    while i < cells.len()
        invariant
            i <= cells.len(),
            best == max_of(cells@.take(i as int)),
            forall|k: int| 0 <= k < i ==> cells[k] <= best,
        decreases cells.len() - i,
    {
        assert(cells@.take(i + 1).drop_last() == cells@.take(i as int));
        if cells[i] > best {
            best = cells[i];
        }
        i = i + 1;
    }
    assert(cells@.take(cells.len() as int) == cells@);
    best
}

pub open spec fn restarts_text(unstable: u32) -> Seq<char> {
    if unstable == 0 {
        missing()
    } else {
        decimal(unstable as nat)
    }
}

/// The unstable restarts of a service, or `-` when there were none.
pub fn format_restarts(unstable: u32) -> (r: String)
    ensures
        r@ == restarts_text(unstable),
{
    if unstable == 0 {
        proof {
            reveal_strlit("-");
        }
        return MISSING.to_string();
    }
    crate::text::decimal_string(unstable as u64)
}

pub open spec fn resources_text(rss_kib: Option<u64>, cpu_tenths: Option<u32>) -> Seq<char> {
    match rss_kib {
        None => missing(),
        Some(rss) => memory_text(Some(rss)) + seq!['/'] + cpu_text(cpu_tenths),
    }
}

/// Memory and CPU together, or `-` when the memory is unknown.
pub fn format_resources(rss_kib: Option<u64>, cpu_tenths: Option<u32>) -> (r: String)
    ensures
        r@ == resources_text(rss_kib, cpu_tenths),
{
    let Some(rss) = rss_kib else {
        proof {
            reveal_strlit("-");
        }
        return MISSING.to_string();
    };
    let memory = format_memory(Some(rss));
    let cpu = format_cpu(cpu_tenths);
    let mut out = chars_of(&memory);
    out.push('/');
    push_str(&mut out, &cpu);
    string_of(&out)
}

pub open spec fn write_flag(mode: Seq<char>) -> char {
    if mode == "danger-full-access"@ {
        'F'
    } else if mode == "workspace-write"@ {
        'W'
    } else {
        '-'
    }
}

pub open spec fn read_flag(read: Seq<char>) -> char {
    if read == "full"@ {
        'R'
    } else {
        '-'
    }
}

pub open spec fn network_flag(network: bool) -> char {
    if network {
        'N'
    } else {
        '-'
    }
}

/// Three flags: what the service may write, whether it reads everything,
/// and whether it reaches the network.
pub fn format_sandbox_flags(mode: &str, read: &str, network: bool) -> (r: String)
    ensures
        r@ == seq![write_flag(mode@), read_flag(read@), network_flag(network)],
{
    let m = chars_of(mode);
    let rd = chars_of(read);
    let mut out: Vec<char> = Vec::new();
    if is_literal(&m, "danger-full-access") {
        out.push('F');
    } else if is_literal(&m, "workspace-write") {
        out.push('W');
    } else {
        out.push('-');
    }
    if is_literal(&rd, "full") {
        out.push('R');
    } else {
        out.push('-');
    }
    out.push(if network {
        'N'
    } else {
        '-'
    });
    assert(out@ =~= seq![write_flag(mode@), read_flag(read@), network_flag(network)]);
    string_of(&out)
}

// ---------------------------------------------------------------------------
// Notices of a listing.
// ---------------------------------------------------------------------------

/// A breaker trips once a service reached its restart budget, when it has one.
pub open spec fn tripped(view: ProcessViewDto) -> bool {
    view.max_restarts != 0 && view.unstable_restarts >= view.max_restarts
}

/// The health mark of a service.
pub open spec fn health_mark(view: ProcessViewDto) -> Option<Seq<char>> {
    if view.status@ == "errored"@ && tripped(view) {
        Some("breaker:"@ + decimal(view.unstable_restarts as nat))
    } else if view.status@ == "errored"@ && !view.autorestart {
        Some("noselfheal"@)
    } else if view.unstable_restarts > 0 {
        Some("flapping:"@ + decimal(view.unstable_restarts as nat))
    } else {
        None
    }
}

/// The notices of a service, separated by commas.
pub open spec fn notice_text(view: ProcessViewDto) -> Seq<char> {
    let marks = match health_mark(view) {
        Some(m) => seq![m],
        None => Seq::empty(),
    };
    let all = if view.env_origin@ == "sealed"@ {
        marks.push("env:sealed"@)
    } else {
        marks
    };
    join(all, seq![','])
}

fn health_mark_exec(view: &ProcessViewDto) -> (r: Option<Vec<char>>)
    ensures
        match r {
            Some(m) => health_mark(*view) == Some(m@),
            None => health_mark(*view) is None,
        },
{
    let status = chars_of(&view.status);
    if is_literal(&status, "errored") {
        if view.max_restarts != 0 && view.unstable_restarts >= view.max_restarts {
            let mut out = chars_of("breaker:");
            push_decimal(&mut out, view.unstable_restarts as u64);
            return Some(out);
        }
        if !view.autorestart {
            return Some(chars_of("noselfheal"));
        }
    }
    if view.unstable_restarts > 0 {
        let mut out = chars_of("flapping:");
        push_decimal(&mut out, view.unstable_restarts as u64);
        return Some(out);
    }
    None
}

/// The notices of a service in a listing.
pub fn format_notice(view: &ProcessViewDto) -> (r: String)
    ensures
        r@ == notice_text(*view),
{
    let mut marks: Vec<Vec<char>> = Vec::new();
    let ghost hm = health_mark(*view);
    if let Some(health) = health_mark_exec(view) {
        let ghost hv = health@;
        marks.push(health);
        assert(views(marks@) =~= seq![hv]);
    } else {
        assert(views(marks@) =~= Seq::<Seq<char>>::empty());
    }
    let ghost first = views(marks@);
    assert(first == match hm {
        Some(m) => seq![m],
        None => Seq::<Seq<char>>::empty(),
    });
    let origin = chars_of(&view.env_origin);
    if is_literal(&origin, "sealed") {
        marks.push(chars_of("env:sealed"));
        assert(views(marks@) =~= first.push("env:sealed"@));
    }
    let comma = [','];
    assert(comma@ =~= seq![',']);
    let joined = join_exec(&marks, &comma);
    assert(views(marks@) =~= {
        let m = match health_mark(*view) {
            Some(m) => seq![m],
            None => Seq::empty(),
        };
        if view.env_origin@ == "sealed"@ {
            m.push("env:sealed"@)
        } else {
            m
        }
    });
    string_of(&joined)
}

// ---------------------------------------------------------------------------
// Messages about the daemon.
// ---------------------------------------------------------------------------

pub open spec fn daemon_gone_text(stopped: Option<Seq<char>>) -> Seq<char> {
    match stopped {
        None => DAEMON_NOT_RUNNING@,
        Some(services) => services + seq!['\n'] + DAEMON_NOT_RUNNING@,
    }
}

/// What is said when the daemon was found not running.
pub fn render_daemon_gone(stopped: Option<&str>) -> (r: String)
    ensures
        r@ == daemon_gone_text(crate::env_file::opt_view(stopped)),
{
    let mut out: Vec<char> = Vec::new();
    if let Some(services) = stopped {
        push_str(&mut out, services);
        out.push('\n');
    }
    push_str(&mut out, DAEMON_NOT_RUNNING);
    string_of(&out)
}

pub open spec fn farewell(pid: u32) -> Seq<char> {
    "stopped the pm3 daemon (pid "@ + decimal(pid as nat) + seq![')']
}

pub open spec fn daemon_stopped_text(stopped: Option<Seq<char>>, pid: u32) -> Seq<char> {
    match stopped {
        None => farewell(pid) + "; managed services keep running"@,
        Some(services) => services + seq!['\n'] + farewell(pid),
    }
}

/// What is said when the daemon was stopped.
pub fn render_daemon_stopped(stopped: Option<&str>, pid: u32) -> (r: String)
    ensures
        r@ == daemon_stopped_text(crate::env_file::opt_view(stopped), pid),
{
    let mut out: Vec<char> = Vec::new();
    if let Some(services) = stopped {
        push_str(&mut out, services);
        out.push('\n');
    }
    push_str(&mut out, "stopped the pm3 daemon (pid ");
    push_decimal(&mut out, pid as u64);
    out.push(')');
    if stopped.is_none() {
        push_str(&mut out, "; managed services keep running");
    }
    assert(out@ =~= daemon_stopped_text(crate::env_file::opt_view(stopped), pid));
    string_of(&out)
}

// ---------------------------------------------------------------------------
// Replies to supervision requests.
// ---------------------------------------------------------------------------

pub open spec fn refused_marker(reason: Seq<char>) -> Seq<char> {
    "cannot start the rest of the batch: "@ + reason
}

pub open spec fn unsaved_marker(reason: Seq<char>) -> Seq<char> {
    "cannot record what pm3 just started: "@ + reason
}

pub open spec fn already_running_marker(name: Seq<char>) -> Seq<char> {
    name + " is already running"@
}

pub open spec fn batch_text(done: Seq<char>, base: Seq<char>, names: Seq<Seq<char>>) -> Seq<char> {
    if names.len() == 0 {
        "no apps to "@ + base
    } else {
        done + seq![' '] + join(names, seq![',', ' '])
    }
}

/// What is said after an action on several apps.
pub fn render_batch(done: &str, base: &str, names: &Vec<String>) -> (r: String)
    ensures
        r@ == batch_text(done@, base@, names.deep_view()),
{
    let mut out: Vec<char> = Vec::new();
    if names.len() == 0 {
        push_str(&mut out, "no apps to ");
        push_str(&mut out, base);
        return string_of(&out);
    }
    push_str(&mut out, done);
    out.push(' ');
    let parts = chars_lists(names);
    let sep = [',', ' '];
    let joined = join_exec(&parts, &sep);
    push_all(&mut out, &joined);
    string_of(&out)
}

pub open spec fn stopped_all_text(names: Seq<Seq<char>>) -> Seq<char> {
    if names.len() == 0 {
        NOTHING_TO_STOP@
    } else {
        "stopped "@ + join(names, seq![',', ' '])
    }
}

/// What is said after every service was stopped.
pub fn render_stopped_all(names: &Vec<String>) -> (r: String)
    ensures
        r@ == stopped_all_text(names.deep_view()),
{
    if names.len() == 0 {
        return NOTHING_TO_STOP.to_string();
    }
    let mut out: Vec<char> = Vec::new();
    push_str(&mut out, "stopped ");
    let parts = chars_lists(names);
    let sep = [',', ' '];
    let joined = join_exec(&parts, &sep);
    push_all(&mut out, &joined);
    string_of(&out)
}

pub open spec fn start_headline(kind: StartKind, name: Seq<char>) -> Seq<char> {
    match kind {
        StartKind::Spawned => "started "@ + name,
        StartKind::AlreadyRunning => already_running_marker(name),
        StartKind::Adopted => "reclaimed "@ + name,
        StartKind::Scheduled => "scheduled "@ + name,
        StartKind::Deferred => "queued "@ + name + " until its dependency becomes ready"@,
    }
}

/// The line that tells what a start did to one service.
pub open spec fn start_line(o: StartOutcome) -> Seq<char> {
    start_headline(o.kind, o.name@) + " (id "@ + decimal(o.pm_id as nat) + ", pid "@ + pid_text(
        o.pid,
    ) + seq![')']
}

fn describe_start(outcome: &StartOutcome) -> (r: Vec<char>)
    ensures
        r@ == start_line(*outcome),
{
    let mut out: Vec<char> = Vec::new();
    match outcome.kind {
        StartKind::Spawned => {
            push_str(&mut out, "started ");
            push_str(&mut out, &outcome.name);
        },
        StartKind::AlreadyRunning => {
            push_str(&mut out, &outcome.name);
            push_str(&mut out, " is already running");
        },
        StartKind::Adopted => {
            push_str(&mut out, "reclaimed ");
            push_str(&mut out, &outcome.name);
        },
        StartKind::Scheduled => {
            push_str(&mut out, "scheduled ");
            push_str(&mut out, &outcome.name);
        },
        StartKind::Deferred => {
            push_str(&mut out, "queued ");
            push_str(&mut out, &outcome.name);
            push_str(&mut out, " until its dependency becomes ready");
        },
    }
    push_str(&mut out, " (id ");
    push_decimal(&mut out, outcome.pm_id as u64);
    push_str(&mut out, ", pid ");
    let pid = format_pid(outcome.pid);
    push_str(&mut out, &pid);
    out.push(')');
    assert(out@ =~= start_line(*outcome));
    out
}

pub open spec fn started_lines(
    outcomes: Seq<StartOutcome>,
    reason: Option<Seq<char>>,
    unsaved: Option<Seq<char>>,
) -> Seq<Seq<char>> {
    let lines = outcomes.map_values(|o: StartOutcome| start_line(o));
    let lines = if lines.len() == 0 {
        seq![NOTHING_STARTED@]
    } else {
        lines
    };
    let lines = match reason {
        Some(r) => lines.push(refused_marker(r)),
        None => lines,
    };
    match unsaved {
        Some(u) => lines.push(unsaved_marker(u)),
        None => lines,
    }
}

/// What is said after a start request: a line per service, then why the
/// rest of the batch was refused and why the state was not recorded.
pub fn render_started(outcomes: &Vec<StartOutcome>, reason: Option<&str>, unsaved: Option<&str>) -> (r:
    String)
    ensures
        r@ == join(
            started_lines(
                outcomes@,
                crate::env_file::opt_view(reason),
                crate::env_file::opt_view(unsaved),
            ),
            seq!['\n'],
        ),
{
    let mut lines: Vec<Vec<char>> = Vec::new();
    let mut i: usize = 0;
    while i < outcomes.len()
        invariant
            i <= outcomes.len(),
            views(lines@) == outcomes@.take(i as int).map_values(|o: StartOutcome| start_line(o)),
        decreases outcomes.len() - i,
    {
        let line = describe_start(&outcomes[i]);
        let ghost lv = line@;
        let ghost before = views(lines@);
        lines.push(line);
        assert(views(lines@) =~= before.push(lv));
        i = i + 1;
        assert(outcomes@.take(i as int).map_values(|o: StartOutcome| start_line(o)) =~= outcomes@.take(
            (i - 1) as int,
        ).map_values(|o: StartOutcome| start_line(o)).push(lv));
    }
    assert(outcomes@.take(outcomes.len() as int) == outcomes@);
    assert(views(lines@) == outcomes@.map_values(|o: StartOutcome| start_line(o)));
    if lines.len() == 0 {
        lines.push(chars_of(NOTHING_STARTED));
        assert(views(lines@) =~= seq![NOTHING_STARTED@]);
    }
    let ghost second = views(lines@);
    if let Some(refused) = reason {
        let mut line = chars_of("cannot start the rest of the batch: ");
        push_str(&mut line, refused);
        let ghost lv = line@;
        assert(lv =~= refused_marker(refused@));
        lines.push(line);
        assert(views(lines@) =~= second.push(lv));
    }
    let ghost third = views(lines@);
    if let Some(u) = unsaved {
        let mut line = chars_of("cannot record what pm3 just started: ");
        push_str(&mut line, u);
        let ghost lv = line@;
        assert(lv =~= unsaved_marker(u@));
        lines.push(line);
        assert(views(lines@) =~= third.push(lv));
    }
    let nl = ['\n'];
    assert(nl@ =~= seq!['\n']);
    let joined = join_exec(&lines, &nl);
    string_of(&joined)
}

/// The service a reply is about, for the replies about one service.
pub open spec fn service_of(reply: SupervisionReply) -> Option<Seq<char>> {
    match reply {
        SupervisionReply::Stopped { name } => Some(name@),
        SupervisionReply::Restarted { name } => Some(name@),
        SupervisionReply::Deleted { name } => Some(name@),
        SupervisionReply::Reset { name } => Some(name@),
        SupervisionReply::Signalled { name, .. } => Some(name@),
        _ => None,
    }
}

/// The services a start reply found already running, in order.
pub open spec fn already_running_of(reply: SupervisionReply) -> Seq<Seq<char>> {
    match reply {
        SupervisionReply::Started { outcomes, .. } => outcomes@.filter(
            |o: StartOutcome| o.kind == StartKind::AlreadyRunning,
        ).map_values(|o: StartOutcome| o.name@),
        _ => Seq::empty(),
    }
}

/// The services a start reply refused.
pub open spec fn refused_of(reply: SupervisionReply) -> Seq<Seq<char>> {
    match reply {
        SupervisionReply::Started { refused, .. } => refused.deep_view(),
        _ => Seq::empty(),
    }
}

/// Why a start reply could not record what it started.
pub open spec fn unsaved_of(reply: SupervisionReply) -> Option<Seq<char>> {
    match reply {
        SupervisionReply::Started { unsaved, .. } => unsaved.deep_view(),
        _ => None,
    }
}

/// The service a reply is about, for the replies about one service.
pub fn affected_service(reply: &SupervisionReply) -> (r: Option<String>)
    ensures
        match *reply {
            SupervisionReply::Stopped { name } => r.deep_view() == Some(name@),
            SupervisionReply::Restarted { name } => r.deep_view() == Some(name@),
            SupervisionReply::Deleted { name } => r.deep_view() == Some(name@),
            SupervisionReply::Reset { name } => r.deep_view() == Some(name@),
            SupervisionReply::Signalled { name, .. } => r.deep_view() == Some(name@),
            _ => r is None,
        },
{
    match reply {
        SupervisionReply::Stopped { name } => Some(name.clone()),
        SupervisionReply::Restarted { name } => Some(name.clone()),
        SupervisionReply::Deleted { name } => Some(name.clone()),
        SupervisionReply::Reset { name } => Some(name.clone()),
        SupervisionReply::Signalled { name, signal: _ } => Some(name.clone()),
        _ => None,
    }
}

/// The apps a delete-all reply names.
pub fn deleted_names(reply: &SupervisionReply) -> (r: Vec<String>)
    ensures
        match *reply {
            SupervisionReply::DeletedAll { names } => r.deep_view() == names.deep_view(),
            _ => r@.len() == 0,
        },
{
    match reply {
        SupervisionReply::DeletedAll { names } => crate::text::clone_strings(names),
        _ => Vec::new(),
    }
}

/// The services a start reply found already running, in order.
pub fn already_running_names(reply: &SupervisionReply) -> (r: Vec<String>)
    ensures
        match *reply {
            SupervisionReply::Started { outcomes, .. } => r.deep_view() == outcomes@.filter(
                |o: StartOutcome| o.kind == StartKind::AlreadyRunning,
            ).map_values(|o: StartOutcome| o.name@),
            _ => r@.len() == 0,
        },
{
    let SupervisionReply::Started { outcomes, .. } = reply else {
        return Vec::new();
    };
    let ghost all = outcomes@;
    let ghost keep = |o: StartOutcome| o.kind == StartKind::AlreadyRunning;
    let mut names: Vec<String> = Vec::new();
    let mut i: usize = 0;
    while i < outcomes.len()
        invariant
            i <= outcomes.len(),
            all == outcomes@,
            keep == (|o: StartOutcome| o.kind == StartKind::AlreadyRunning),
            names.deep_view() == all.take(i as int).filter(keep).map_values(
                |o: StartOutcome| o.name@,
            ),
        decreases outcomes.len() - i,
    {
        let ghost prefix = all.take(i as int);
        let ghost next = all.take(i + 1);
        assert(next.drop_last() == prefix);
        reveal_with_fuel(Seq::filter, 1);
        if outcomes[i].kind == StartKind::AlreadyRunning {
            let ghost before = names.deep_view();
            let name = outcomes[i].name.clone();
            let ghost nv = name@;
            names.push(name);
            assert(names.deep_view() =~= before.push(nv));
            assert(next.filter(keep) == prefix.filter(keep).push(all[i as int]));
            assert(next.filter(keep).map_values(|o: StartOutcome| o.name@) =~= prefix.filter(
                keep,
            ).map_values(|o: StartOutcome| o.name@).push(nv));
        } else {
            assert(next.filter(keep) == prefix.filter(keep));
        }
        i = i + 1;
    }
    assert(all.take(outcomes.len() as int) == all);
    names
}

/// The services a start reply refused.
pub fn refused_names(reply: &SupervisionReply) -> (r: Vec<String>)
    ensures
        match *reply {
            SupervisionReply::Started { refused, .. } => r.deep_view() == refused.deep_view(),
            _ => r@.len() == 0,
        },
{
    match reply {
        SupervisionReply::Started { refused, .. } => crate::text::clone_strings(refused),
        _ => Vec::new(),
    }
}

/// Why a start reply could not record what it started, if it could not.
pub fn unsaved_reason(reply: &SupervisionReply) -> (r: Option<String>)
    ensures
        match *reply {
            SupervisionReply::Started { unsaved, .. } => r.deep_view() == unsaved.deep_view(),
            _ => r is None,
        },
{
    match reply {
        SupervisionReply::Started { unsaved, .. } => crate::text::clone_opt_string(unsaved),
        _ => None,
    }
}


/// What holds of the text that answers `reply`, whatever the host's time zone.
pub open spec fn reply_fits(reply: SupervisionReply, text: Seq<char>) -> bool {
    match reply {
        SupervisionReply::Started { outcomes, reason, unsaved, .. } => text == join(
            started_lines(outcomes@, reason.deep_view(), unsaved.deep_view()),
            seq!['\n'],
        ),
        SupervisionReply::Listed(views) => exists|
            dtos: Seq<ProcessViewDto>,
            label: Seq<char>,
            clocks: Seq<Seq<char>>,
        |
            {
                &&& dtos.len() == views.len()
                &&& forall|i: int| 0 <= i < views.len() ==> (#[trigger] dtos[i]).carries(views[i])
                &&& listed(dtos, Listing::Compact, label, clocks, text)
            },
        SupervisionReply::Described(view) => exists|stamp: Seq<char>|
            stamp_fits(view.next_fire_ms, stamp) && text == describe_text(view, stamp),
        SupervisionReply::Stopped { name } => text == "stopped "@ + name@,
        SupervisionReply::Restarted { name } => text == "restarted "@ + name@,
        SupervisionReply::Deleted { name } => text == "deleted "@ + name@,
        SupervisionReply::Reset { name } => text == "reset "@ + name@,
        SupervisionReply::Signalled { name, signal } => text == "sent "@ + signal@ + " to "@
            + name@,
        SupervisionReply::StoppedAll { names } => text == stopped_all_text(names.deep_view()),
        SupervisionReply::RestartedAll { names } => text == batch_text(
            "restarted"@,
            "restart"@,
            names.deep_view(),
        ),
        SupervisionReply::DeletedAll { names } => text == batch_text(
            "deleted"@,
            "delete"@,
            names.deep_view(),
        ),
        SupervisionReply::ResetAll { names } => text == batch_text(
            "reset"@,
            "reset"@,
            names.deep_view(),
        ),
    }
}

fn as_text(o: &Option<String>) -> (r: Option<&str>)
    ensures
        crate::env_file::opt_view(r) == o.deep_view(),
{
    match o {
        Some(s) => Some(s.as_str()),
        None => None,
    }
}

fn prefixed(head: &str, name: &str) -> (r: String)
    ensures
        r@ == head@ + name@,
{
    let mut out = chars_of(head);
    push_str(&mut out, name);
    string_of(&out)
}

/// The text that answers a supervision request; a listing is compact.
pub fn render_reply(reply: &SupervisionReply) -> (r: String)
    ensures
        reply_fits(*reply, r@),
{
    match reply {
        SupervisionReply::Started { outcomes, reason, unsaved, .. } => {
            render_started(outcomes, as_text(reason), as_text(unsaved))
        },
        SupervisionReply::Listed(views) => {
            let mut dtos: Vec<ProcessViewDto> = Vec::new();
            let mut i: usize = 0;
            while i < views.len()
                invariant
                    i <= views.len(),
                    dtos.len() == i,
                    forall|k: int| 0 <= k < i ==> (#[trigger] dtos[k]).carries(views[k]),
                decreases views.len() - i,
            {
                dtos.push(ProcessViewDto::from_view(&views[i]));
                i = i + 1;
            }
            let r = render_table(dtos.as_slice(), Listing::Compact);
            proof {
                let (label, clocks) = choose|label: Seq<char>, clocks: Seq<Seq<char>>|
                    listed(dtos@, Listing::Compact, label, clocks, r@);
                assert(forall|k: int| 0 <= k < views@.len() ==> (#[trigger] dtos@[k]).carries(views@[k]));
                assert(listed(dtos@, Listing::Compact, label, clocks, r@));
            }
            r
        },
        SupervisionReply::Described(view) => render_describe(view),
        SupervisionReply::Stopped { name } => prefixed("stopped ", name),
        SupervisionReply::Restarted { name } => prefixed("restarted ", name),
        SupervisionReply::Deleted { name } => prefixed("deleted ", name),
        SupervisionReply::Reset { name } => prefixed("reset ", name),
        SupervisionReply::Signalled { name, signal } => {
            let mut out = chars_of("sent ");
            push_str(&mut out, signal);
            push_str(&mut out, " to ");
            push_str(&mut out, name);
            string_of(&out)
        },
        SupervisionReply::StoppedAll { names } => render_stopped_all(names),
        SupervisionReply::RestartedAll { names } => render_batch("restarted", "restart", names),
        SupervisionReply::DeletedAll { names } => render_batch("deleted", "delete", names),
        SupervisionReply::ResetAll { names } => render_batch("reset", "reset", names),
    }
}

} // verus!
