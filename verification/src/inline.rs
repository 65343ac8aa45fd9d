use vstd::prelude::*;

use crate::apps_file::{
    clone_codes, dedup, dedup_roots, AppEntry, AppEntryView, ReadyProbeEntry, ReadyProbeEntryView,
    SandboxEntry, SandboxEntryView,
};
use crate::loader::hex_digit_char;
use crate::program::{
    fold_home, fold_home_spec, fold_service_cwd, fold_service_cwd_spec, home_placeholder,
    service_cwd_placeholder,
};
use crate::text::{
    chars_of, decimal, find, find_exec, is_control, is_control_exec, lemma_find_from_bounds,
    lines, lines_exec, push_all, push_decimal, push_signed_decimal, push_str, same_chars,
    signed_decimal, slice_of, string_of, views,
};

verus! {

/// What `pm3 start` was asked on the command line, to be written as a
/// service file.
pub struct InlineRequest<'r> {
    pub name: &'r str,
    pub program: &'r str,
    pub args: &'r [String],
    pub cwd: Option<&'r str>,
    pub home: Option<&'r str>,
    pub cron: Option<&'r str>,
    pub autorestart: Option<bool>,
    pub network: bool,
    pub writable_dirs: &'r [String],
    pub readable_dirs: &'r [String],
    pub max_memory: Option<&'r str>,
    pub ready_exec: &'r [String],
    pub ready_tcp: Option<&'r str>,
    pub listen_timeout_ms: Option<u64>,
    pub stop_exit_codes: &'r [i32],
}

pub open spec fn opt_str(o: Option<&str>) -> Option<Seq<char>> {
    match o {
        Some(s) => Some(s@),
        None => None,
    }
}

// ---------------------------------------------------------------------------
// Folding host paths into placeholders.
// ---------------------------------------------------------------------------

pub open spec fn fold_roots_spec(roots: Seq<Seq<char>>, home: Option<Seq<char>>) -> Seq<Seq<char>> {
    dedup(roots.map_values(|r: Seq<char>| fold_home_spec(r, home)))
}

pub open spec fn fold_arg(a: Seq<char>, home: Option<Seq<char>>) -> Seq<char> {
    fold_service_cwd_spec(fold_home_spec(a, home))
}

/// A declaration with the host's home directory and service directory
/// written as placeholders, so the file reads the same on another host.
pub open spec fn folded(e: AppEntryView, home: Option<Seq<char>>) -> AppEntryView {
    AppEntryView {
        script: fold_home_spec(e.script, home),
        cwd: match e.cwd {
            Some(c) => Some(fold_home_spec(c, home)),
            None => None,
        },
        args: e.args.map_values(|a: Seq<char>| fold_arg(a, home)),
        sandbox: match e.sandbox {
            Some(s) => Some(
                SandboxEntryView {
                    writable_roots: match s.writable_roots {
                        Some(r) => Some(fold_roots_spec(r, home)),
                        None => None,
                    },
                    readable_roots: match s.readable_roots {
                        Some(r) => Some(fold_roots_spec(r, home)),
                        None => None,
                    },
                    ..s
                },
            ),
            None => None,
        },
        ..e
    }
}

fn fold_roots(roots: &Vec<String>, home: Option<&str>) -> (r: Vec<String>)
    ensures
        r.deep_view() == fold_roots_spec(roots.deep_view(), opt_str(home)),
{
    let mut folded: Vec<String> = Vec::new();
    let mut i: usize = 0;
    while i < roots.len()
        invariant
            i <= roots.len(),
            folded.deep_view() == roots.deep_view().take(i as int).map_values(
                |r: Seq<char>| fold_home_spec(r, opt_str(home)),
            ),
        decreases roots.len() - i,
    {
        let f = fold_home(&roots[i], home);
        let ghost fv = f@;
        let ghost before = folded.deep_view();
        folded.push(f);
        assert(folded.deep_view() =~= before.push(fv));
        i = i + 1;
        assert(roots.deep_view().take(i as int).map_values(
            |r: Seq<char>| fold_home_spec(r, opt_str(home)),
        ) =~= roots.deep_view().take((i - 1) as int).map_values(
            |r: Seq<char>| fold_home_spec(r, opt_str(home)),
        ).push(fv));
    }
    assert(roots.deep_view().take(roots.len() as int) =~= roots.deep_view());
    dedup_roots(folded)
}

fn fold_args(args: &Vec<String>, home: Option<&str>) -> (r: Vec<String>)
    ensures
        r.deep_view() == args.deep_view().map_values(|a: Seq<char>| fold_arg(a, opt_str(home))),
{
    let mut folded: Vec<String> = Vec::new();
    let mut i: usize = 0;
    while i < args.len()
        invariant
            i <= args.len(),
            folded.deep_view() == args.deep_view().take(i as int).map_values(
                |a: Seq<char>| fold_arg(a, opt_str(home)),
            ),
        decreases args.len() - i,
    {
        let h = fold_home(&args[i], home);
        let f = fold_service_cwd(&h);
        let ghost fv = f@;
        let ghost before = folded.deep_view();
        folded.push(f);
        assert(folded.deep_view() =~= before.push(fv));
        i = i + 1;
        assert(args.deep_view().take(i as int).map_values(
            |a: Seq<char>| fold_arg(a, opt_str(home)),
        ) =~= args.deep_view().take((i - 1) as int).map_values(
            |a: Seq<char>| fold_arg(a, opt_str(home)),
        ).push(fv));
    }
    assert(args.deep_view().take(args.len() as int) =~= args.deep_view());
    folded
}

/// Writes the host's home and service directories in a declaration as placeholders.
pub fn fold_entry(entry: &AppEntry, home: Option<&str>) -> (r: AppEntry)
    ensures
        r@ == folded(entry@, opt_str(home)),
{
    let mut out = entry.copy();
    out.script = fold_home(&entry.script, home);
    out.cwd = match &entry.cwd {
        Some(c) => Some(fold_home(c, home)),
        None => None,
    };
    out.args = fold_args(&entry.args, home);
    out.sandbox = match &entry.sandbox {
        Some(s) => {
            let mut section = s.copy();
            section.writable_roots = match &s.writable_roots {
                Some(r) => Some(fold_roots(r, home)),
                None => None,
            };
            section.readable_roots = match &s.readable_roots {
                Some(r) => Some(fold_roots(r, home)),
                None => None,
            };
            Some(section)
        },
        None => None,
    };
    assert(out@ =~= folded(entry@, opt_str(home)));
    out
}

// ---------------------------------------------------------------------------
// A declaration made from a command line.
// ---------------------------------------------------------------------------

pub open spec fn slice_strings(v: &[String]) -> Seq<Seq<char>> {
    v@.map_values(|s: String| s@)
}

/// The readiness probe a command line asks for: the command if one is
/// given, else the endpoint.
pub open spec fn requested_probe(ready_exec: Seq<Seq<char>>, ready_tcp: Option<Seq<char>>) -> Option<
    ReadyProbeEntryView,
> {
    if ready_exec.len() > 0 {
        Some(ReadyProbeEntryView { command: Some(ready_exec), tcp: None })
    } else {
        match ready_tcp {
            Some(t) => Some(ReadyProbeEntryView { command: None, tcp: Some(t) }),
            None => None,
        }
    }
}

/// The declaration a command line stands for, before folding.
pub open spec fn requested_entry(req: InlineRequest) -> AppEntryView {
    AppEntryView {
        name: req.name@,
        script: req.program@,
        cwd: opt_str(req.cwd),
        args: slice_strings(req.args),
        rejected_env: None,
        depends_on: Seq::empty(),
        autorestart: req.autorestart,
        min_uptime_ms: None,
        max_restarts: None,
        restart_delay_ms: None,
        max_restart_delay_ms: None,
        listen_timeout_ms: req.listen_timeout_ms,
        ready_probe: requested_probe(slice_strings(req.ready_exec), opt_str(req.ready_tcp)),
        schedule: opt_str(req.cron),
        max_memory: opt_str(req.max_memory),
        stop_exit_codes: req.stop_exit_codes@,
        sandbox: Some(
            SandboxEntryView {
                mode: None,
                read: None,
                network: if req.network {
                    Some(true)
                } else {
                    None
                },
                writable_roots: if req.writable_dirs@.len() > 0 {
                    Some(slice_strings(req.writable_dirs))
                } else {
                    None
                },
                readable_roots: if req.readable_dirs@.len() > 0 {
                    Some(slice_strings(req.readable_dirs))
                } else {
                    None
                },
            },
        ),
    }
}

fn strings_of(v: &[String]) -> (r: Vec<String>)
    ensures
        r.deep_view() == slice_strings(v),
{
    let mut r: Vec<String> = Vec::new();
    let mut i: usize = 0;
    while i < v.len()
        invariant
            i <= v.len(),
            r.deep_view() == slice_strings(v).take(i as int),
        decreases v.len() - i,
    {
        let s = v[i].clone();
        let ghost sv = s@;
        let ghost before = r.deep_view();
        r.push(s);
        assert(r.deep_view() =~= before.push(sv));
        i = i + 1;
        assert(slice_strings(v).take(i as int) =~= slice_strings(v).take((i - 1) as int).push(sv));
    }
    assert(slice_strings(v).take(v@.len() as int) =~= slice_strings(v));
    r
}

fn codes_of(v: &[i32]) -> (r: Vec<i32>)
    ensures
        r@ == v@,
{
    let mut r: Vec<i32> = Vec::new();
    let mut i: usize = 0;
    while i < v.len()
        invariant
            i <= v.len(),
            r@ == v@.take(i as int),
        decreases v.len() - i,
    {
        r.push(v[i]);
        i = i + 1;
        assert(r@ =~= v@.take(i as int));
    }
    assert(v@.take(v@.len() as int) == v@);
    r
}

fn opt_string(o: Option<&str>) -> (r: Option<String>)
    ensures
        r.deep_view() == opt_str(o),
{
    match o {
        Some(s) => Some(s.to_string()),
        None => None,
    }
}

fn ready_probe_of(request: &InlineRequest) -> (r: Option<ReadyProbeEntry>)
    ensures
        crate::apps_file::opt_probe_view(r) == requested_probe(
            slice_strings(request.ready_exec),
            opt_str(request.ready_tcp),
        ),
{
    if request.ready_exec.len() > 0 {
        return Some(ReadyProbeEntry { command: Some(strings_of(request.ready_exec)), tcp: None });
    }
    match request.ready_tcp {
        Some(endpoint) => Some(ReadyProbeEntry { command: None, tcp: Some(endpoint.to_string()) }),
        None => None,
    }
}

/// The declaration a command line asks for, with host paths folded.
pub fn inline_entry(request: &InlineRequest) -> (r: AppEntry)
    ensures
        r@ == folded(requested_entry(*request), opt_str(request.home)),
{
    let sandbox = SandboxEntry {
        mode: None,
        read: None,
        network: if request.network {
            Some(true)
        } else {
            None
        },
        writable_roots: if request.writable_dirs.len() > 0 {
            Some(strings_of(request.writable_dirs))
        } else {
            None
        },
        readable_roots: if request.readable_dirs.len() > 0 {
            Some(strings_of(request.readable_dirs))
        } else {
            None
        },
    };
    let entry = AppEntry {
        name: request.name.to_string(),
        script: request.program.to_string(),
        cwd: opt_string(request.cwd),
        args: strings_of(request.args),
        rejected_env: None,
        depends_on: Vec::new(),
        autorestart: request.autorestart,
        min_uptime_ms: None,
        max_restarts: None,
        restart_delay_ms: None,
        max_restart_delay_ms: None,
        schedule: opt_string(request.cron),
        max_memory: opt_string(request.max_memory),
        stop_exit_codes: codes_of(request.stop_exit_codes),
        listen_timeout_ms: request.listen_timeout_ms,
        ready_probe: ready_probe_of(request),
        sandbox: Some(sandbox),
    };
    assert(entry@ =~= requested_entry(*request));
    fold_entry(&entry, request.home)
}

// ---------------------------------------------------------------------------
// Writing a service file.
// ---------------------------------------------------------------------------

/// Two lower-case hexadecimal digits after `\x`.
pub open spec fn hex_escape(c: char) -> Seq<char> {
    seq!['\\', 'x', hex_digit_char((c as nat) / 16), hex_digit_char((c as nat) % 16)]
}

/// How a character is written inside double quotes of a service file.
pub open spec fn escape_char(c: char) -> Seq<char> {
    if c == '\\' {
        seq!['\\', '\\']
    } else if c == '"' {
        seq!['\\', '"']
    } else if c == '\n' {
        seq!['\\', 'n']
    } else if c == '\r' {
        seq!['\\', 'r']
    } else if c == '\t' {
        seq!['\\', 't']
    } else if c == '$' || is_control(c) {
        hex_escape(c)
    } else {
        seq![c]
    }
}

/// The text inside the quotes of a quoted value.
pub open spec fn escape_body(s: Seq<char>) -> Seq<char>
    decreases s.len(),
{
    if s.len() == 0 {
        Seq::empty()
    } else {
        escape_char(s[0]) + escape_body(s.skip(1))
    }
}

pub open spec fn quote(s: Seq<char>) -> Seq<char> {
    seq!['"'] + escape_body(s) + seq!['"']
}

/// The first placeholder in `s` and where it stands.
pub open spec fn next_placeholder(s: Seq<char>) -> Option<(nat, Seq<char>)> {
    match (find(s, home_placeholder()), find(s, service_cwd_placeholder())) {
        (None, None) => None,
        (Some(a), None) => Some((a, home_placeholder())),
        (None, Some(b)) => Some((b, service_cwd_placeholder())),
        (Some(a), Some(b)) => if a <= b {
            Some((a, home_placeholder()))
        } else {
            Some((b, service_cwd_placeholder()))
        },
    }
}

/// A quoted body whose placeholders stay as written, so they are expanded later.
pub open spec fn placeheld_body(s: Seq<char>) -> Seq<char>
    decreases s.len(),
{
    match next_placeholder(s) {
        None => escape_body(s),
        Some((i, p)) => {
            proof {
                lemma_next_placeholder_fits(s);
            }
            escape_body(s.take(i as int)) + p + placeheld_body(s.skip((i + p.len()) as int))
        },
    }
}

pub open spec fn quote_placeheld(s: Seq<char>) -> Seq<char> {
    seq!['"'] + placeheld_body(s) + seq!['"']
}

pub proof fn lemma_next_placeholder_fits(s: Seq<char>)
    ensures
        next_placeholder(s) matches Some((i, p)) ==> i + p.len() <= s.len() && p.len() > 0,
{
    lemma_find_from_bounds(s, home_placeholder(), 0);
    lemma_find_from_bounds(s, service_cwd_placeholder(), 0);
}

pub open spec fn colon_space() -> Seq<char> {
    seq![':', ' ']
}

pub open spec fn indent() -> Seq<char> {
    seq![' ', ' ']
}

/// `key: value` on a line of its own.
pub open spec fn scalar(key: Seq<char>, value: Seq<char>) -> Seq<char> {
    key + colon_space() + value + seq!['\n']
}

/// `  key: value` on a line of its own, inside a section.
pub open spec fn nested(key: Seq<char>, value: Seq<char>) -> Seq<char> {
    indent() + scalar(key, value)
}

pub open spec fn bool_text(b: bool) -> Seq<char> {
    if b {
        seq!['t', 'r', 'u', 'e']
    } else {
        seq!['f', 'a', 'l', 's', 'e']
    }
}

pub open spec fn optional_number(key: Seq<char>, v: Option<u64>) -> Seq<char> {
    match v {
        Some(n) => scalar(key, decimal(n as nat)),
        None => Seq::empty(),
    }
}

pub open spec fn optional_bool(key: Seq<char>, v: Option<bool>) -> Seq<char> {
    match v {
        Some(b) => scalar(key, bool_text(b)),
        None => Seq::empty(),
    }
}

pub open spec fn optional_text(key: Seq<char>, v: Option<Seq<char>>) -> Seq<char> {
    match v {
        Some(s) => scalar(key, quote(s)),
        None => Seq::empty(),
    }
}

pub open spec fn placeheld_text(key: Seq<char>, v: Option<Seq<char>>) -> Seq<char> {
    match v {
        Some(s) => scalar(key, quote_placeheld(s)),
        None => Seq::empty(),
    }
}

/// The items of a list, one `- "item"` line each.
pub open spec fn items(ind: Seq<char>, values: Seq<Seq<char>>, placeheld: bool) -> Seq<char>
    decreases values.len(),
{
    if values.len() == 0 {
        Seq::empty()
    } else {
        items(ind, values.drop_last(), placeheld) + ind + seq![' ', ' ', '-', ' '] + (if placeheld {
            quote_placeheld(values.last())
        } else {
            quote(values.last())
        }) + seq!['\n']
    }
}

/// A list under its key, or nothing when it is empty.
pub open spec fn sequence(ind: Seq<char>, key: Seq<char>, values: Seq<Seq<char>>, placeheld: bool) -> Seq<
    char,
> {
    if values.len() == 0 {
        Seq::empty()
    } else {
        ind + key + seq![':', '\n'] + items(ind, values, placeheld)
    }
}

pub open spec fn number_items(values: Seq<i32>) -> Seq<char>
    decreases values.len(),
{
    if values.len() == 0 {
        Seq::empty()
    } else {
        number_items(values.drop_last()) + seq![' ', ' ', '-', ' '] + signed_decimal(
            values.last() as int,
        ) + seq!['\n']
    }
}

pub open spec fn number_sequence(key: Seq<char>, values: Seq<i32>) -> Seq<char> {
    if values.len() == 0 {
        Seq::empty()
    } else {
        key + seq![':', '\n'] + number_items(values)
    }
}

pub open spec fn with_header(header: Seq<char>, body: Seq<char>) -> Seq<char> {
    if body.len() == 0 {
        body
    } else {
        header + seq![':', '\n'] + body
    }
}

/// The `ready_probe` section.
#[verifier::opaque]
pub open spec fn encode_ready_probe(probe: Option<ReadyProbeEntryView>) -> Seq<char> {
    match probe {
        None => Seq::empty(),
        Some(p) => {
            let exec = match p.command {
                Some(c) => c,
                None => Seq::empty(),
            };
            let tcp = match p.tcp {
                Some(t) => nested("tcp"@, quote(t)),
                None => Seq::empty(),
            };
            with_header("ready_probe"@, sequence(indent(), "exec"@, exec, false) + tcp)
        },
    }
}

/// The `sandbox` section.
#[verifier::opaque]
pub open spec fn encode_sandbox(sandbox: Option<SandboxEntryView>) -> Seq<char> {
    match sandbox {
        None => Seq::empty(),
        Some(s) => {
            let mode = match s.mode {
                Some(m) => nested("mode"@, quote(m)),
                None => Seq::empty(),
            };
            let read = match s.read {
                Some(r) => nested("read"@, quote(r)),
                None => Seq::empty(),
            };
            let network = match s.network {
                Some(n) => nested("network"@, bool_text(n)),
                None => Seq::empty(),
            };
            let writable = match s.writable_roots {
                Some(r) => r,
                None => Seq::empty(),
            };
            let readable = match s.readable_roots {
                Some(r) => r,
                None => Seq::empty(),
            };
            with_header(
                "sandbox"@,
                mode + read + network + sequence(indent(), "writable_roots"@, writable, true)
                    + sequence(indent(), "readable_roots"@, readable, true),
            )
        },
    }
}

/// The text of a service file that declares `e`.
pub open spec fn encode_entry(e: AppEntryView) -> Seq<char> {
    entry_head(e) + entry_numbers(e) + entry_tail(e)
}

/// The name, program, directory and lists of a declaration.
pub open spec fn entry_head(e: AppEntryView) -> Seq<char> {
    scalar("name"@, quote(e.name)) + scalar("script"@, quote_placeheld(e.script)) + placeheld_text(
        "cwd"@,
        e.cwd,
    ) + sequence(Seq::empty(), "args"@, e.args, true) + sequence(
        Seq::empty(),
        "depends_on"@,
        e.depends_on,
        false,
    )
}

/// The restart policy of a declaration.
pub open spec fn entry_numbers(e: AppEntryView) -> Seq<char> {
    optional_bool("autorestart"@, e.autorestart) + optional_number(
        "min_uptime_ms"@,
        e.min_uptime_ms,
    ) + optional_number(
        "max_restarts"@,
        match e.max_restarts {
            Some(n) => Some(n as u64),
            None => None,
        },
    ) + optional_number("restart_delay_ms"@, e.restart_delay_ms) + optional_number(
        "max_restart_delay_ms"@,
        e.max_restart_delay_ms,
    )
}

/// The schedule, limits and sections of a declaration.
pub open spec fn entry_tail(e: AppEntryView) -> Seq<char> {
    optional_text("schedule"@, e.schedule) + optional_text("max_memory"@, e.max_memory)
        + number_sequence("stop_exit_codes"@, e.stop_exit_codes) + optional_number(
        "listen_timeout_ms"@,
        e.listen_timeout_ms,
    ) + encode_ready_probe(e.ready_probe) + encode_sandbox(e.sandbox)
}

fn push_hex_escape(out: &mut Vec<char>, c: char)
    requires
        (c as u32) < 256,
    ensures
        final(out)@ == old(out)@ + hex_escape(c),
{
    let u = c as u32;
    let hi = u / 16;
    let lo = u % 16;
    out.push('\\');
    out.push('x');
    let h = if hi < 10 {
        (('0' as u8) + (hi as u8)) as char
    } else {
        (('a' as u8) + (hi as u8) - 10) as char
    };
    let l = if lo < 10 {
        (('0' as u8) + (lo as u8)) as char
    } else {
        (('a' as u8) + (lo as u8) - 10) as char
    };
    assert(h == hex_digit_char((c as nat) / 16));
    assert(l == hex_digit_char((c as nat) % 16));
    out.push(h);
    out.push(l);
    assert(final(out)@ =~= old(out)@ + hex_escape(c));
}

fn push_escaped_char(out: &mut Vec<char>, c: char)
    ensures
        final(out)@ == old(out)@ + escape_char(c),
{
    let ghost start = out@;
    if c == '\\' {
        out.push('\\');
        out.push('\\');
    } else if c == '"' {
        out.push('\\');
        out.push('"');
    } else if c == '\n' {
        out.push('\\');
        out.push('n');
    } else if c == '\r' {
        out.push('\\');
        out.push('r');
    } else if c == '\t' {
        out.push('\\');
        out.push('t');
    } else if c == '$' || is_control_exec(c) {
        push_hex_escape(out, c);
    } else {
        out.push(c);
    }
    assert(out@ =~= start + escape_char(c));
}

fn push_escaped(out: &mut Vec<char>, s: &[char])
    ensures
        final(out)@ == old(out)@ + escape_body(s@),
{
    let mut i: usize = 0;
    assert(s@.skip(0) == s@);
    while i < s.len()
        invariant
            i <= s.len(),
            old(out)@ + escape_body(s@) == out@ + escape_body(s@.skip(i as int)),
        decreases s.len() - i,
    {
        let ghost before = out@;
        let ghost rest = s@.skip(i as int);
        assert(rest[0] == s@[i as int]);
        assert(rest.skip(1) == s@.skip(i + 1));
        push_escaped_char(out, s[i]);
        assert(before + (escape_char(s@[i as int]) + escape_body(rest.skip(1))) =~= out@ + escape_body(
            s@.skip(i + 1),
        ));
        i = i + 1;
    }
    assert(s@.skip(i as int).len() == 0);
    assert(out@ + escape_body(s@.skip(i as int)) =~= out@);
}

fn push_quoted(out: &mut Vec<char>, s: &[char])
    ensures
        final(out)@ == old(out)@ + quote(s@),
{
    let ghost start = out@;
    out.push('"');
    push_escaped(out, s);
    out.push('"');
    assert(out@ =~= start + quote(s@));
}

fn push_placeheld(out: &mut Vec<char>, s: &[char])
    ensures
        final(out)@ == old(out)@ + quote_placeheld(s@),
{
    let home = ['$', '{', 'H', 'O', 'M', 'E', '}'];
    let cwd = chars_of("${PM3_SERVICE_CWD}");
    proof {
        reveal_strlit("${PM3_SERVICE_CWD}");
    }
    assert(home@ == home_placeholder());
    assert(cwd@ == service_cwd_placeholder());
    let ghost start = out@;
    out.push('"');
    let mut rest = slice_of(s, 0, s.len());
    assert(rest@ == s@);
    loop
        invariant
            home@ == home_placeholder(),
            cwd@ == service_cwd_placeholder(),
            start == old(out)@,
            start + seq!['"'] + placeheld_body(s@) == out@ + placeheld_body(rest@),
        decreases rest@.len(),
    {
        let a = find_exec(&rest, &home);
        let b = find_exec(&rest, &cwd);
        let next: Option<(usize, bool)> = match (a, b) {
            (None, None) => None,
            (Some(i), None) => Some((i, true)),
            (None, Some(j)) => Some((j, false)),
            (Some(i), Some(j)) => if i <= j {
                Some((i, true))
            } else {
                Some((j, false))
            },
        };
        match next {
            None => {
                let ghost before = out@;
                assert(next_placeholder(rest@) is None);
                assert(placeheld_body(rest@) == escape_body(rest@));
                push_escaped(out, &rest);
                out.push('"');
                assert(out@ =~= before + placeheld_body(rest@) + seq!['"']);
                assert(start + quote_placeheld(s@) =~= (start + seq!['"'] + placeheld_body(s@)) + seq![
                    '"',
                ]);
                return;
            },
            Some((i, is_home)) => {
                proof {
                    lemma_next_placeholder_fits(rest@);
                }
                let ghost before = out@;
                let plen: usize = if is_home {
                    7
                } else {
                    18
                };
                let head = slice_of(&rest, 0, i);
                push_escaped(out, &head);
                if is_home {
                    push_all(out, &home);
                } else {
                    push_all(out, &cwd);
                }
                let rlen = rest.len();
                assert(i + plen <= rlen);
                let tail = slice_of(&rest, i + plen, rlen);
                let ghost p = if is_home {
                    home_placeholder()
                } else {
                    service_cwd_placeholder()
                };
                assert(next_placeholder(rest@) == Some((i as nat, p)));
                assert(head@ == rest@.take(i as int));
                assert(tail@ == rest@.skip((i + p.len()) as int));
                assert(before + (escape_body(head@) + p + placeheld_body(tail@)) =~= out@
                    + placeheld_body(tail@));
                rest = tail;
            },
        }
    }
}

fn push_scalar_start(out: &mut Vec<char>, ind: &[char], key: &str)
    ensures
        final(out)@ == old(out)@ + ind@ + key@ + colon_space(),
{
    push_all(out, ind);
    push_str(out, key);
    out.push(':');
    out.push(' ');
    assert(final(out)@ =~= old(out)@ + ind@ + key@ + colon_space());
}

fn push_items(out: &mut Vec<char>, ind: &[char], values: &Vec<String>, placeheld: bool)
    ensures
        final(out)@ == old(out)@ + items(ind@, values.deep_view(), placeheld),
{
    let mut i: usize = 0;
    assert(items(ind@, values.deep_view().take(0), placeheld) == Seq::<char>::empty());
    while i < values.len()
        invariant
            i <= values.len(),
            out@ == old(out)@ + items(ind@, values.deep_view().take(i as int), placeheld),
        decreases values.len() - i,
    {
        let ghost before = out@;
        let v = chars_of(&values[i]);
        push_all(out, ind);
        out.push(' ');
        out.push(' ');
        out.push('-');
        out.push(' ');
        if placeheld {
            push_placeheld(out, &v);
        } else {
            push_quoted(out, &v);
        }
        out.push('\n');
        i = i + 1;
        proof {
            let next = values.deep_view().take(i as int);
            assert(next.drop_last() == values.deep_view().take((i - 1) as int));
            assert(next.last() == v@);
            assert(out@ =~= old(out)@ + items(ind@, next, placeheld));
        }
    }
    assert(values.deep_view().take(values.len() as int) == values.deep_view());
}

fn push_sequence(out: &mut Vec<char>, ind: &[char], key: &str, values: &Vec<String>, placeheld: bool)
    ensures
        final(out)@ == old(out)@ + sequence(ind@, key@, values.deep_view(), placeheld),
{
    if values.len() == 0 {
        assert(final(out)@ =~= old(out)@ + Seq::<char>::empty());
        return;
    }
    let ghost start = out@;
    push_all(out, ind);
    push_str(out, key);
    out.push(':');
    out.push('\n');
    let ghost mid = out@;
    push_items(out, ind, values, placeheld);
    assert(out@ =~= start + sequence(ind@, key@, values.deep_view(), placeheld));
}

fn push_number_sequence(out: &mut Vec<char>, key: &str, values: &Vec<i32>)
    ensures
        final(out)@ == old(out)@ + number_sequence(key@, values@),
{
    if values.len() == 0 {
        assert(final(out)@ =~= old(out)@ + Seq::<char>::empty());
        return;
    }
    let ghost start = out@;
    push_str(out, key);
    out.push(':');
    out.push('\n');
    let ghost head = out@;
    let mut i: usize = 0;
    assert(number_items(values@.take(0)) == Seq::<char>::empty());
    while i < values.len()
        invariant
            i <= values.len(),
            out@ == head + number_items(values@.take(i as int)),
        decreases values.len() - i,
    {
        out.push(' ');
        out.push(' ');
        out.push('-');
        out.push(' ');
        push_signed_decimal(out, values[i] as i64);
        out.push('\n');
        i = i + 1;
        proof {
            let next = values@.take(i as int);
            assert(next.drop_last() == values@.take((i - 1) as int));
            assert(out@ =~= head + number_items(next));
        }
    }
    assert(values@.take(values.len() as int) == values@);
    assert(out@ =~= start + number_sequence(key@, values@));
}

fn push_optional_number(out: &mut Vec<char>, key: &str, v: Option<u64>)
    ensures
        final(out)@ == old(out)@ + optional_number(key@, v),
{
    match v {
        Some(n) => {
            let ghost start = out@;
            push_scalar_start(out, &[], key);
            push_decimal(out, n);
            out.push('\n');
            assert(out@ =~= start + scalar(key@, decimal(n as nat)));
        },
        None => {
            assert(final(out)@ =~= old(out)@ + Seq::<char>::empty());
        },
    }
}

fn push_bool(out: &mut Vec<char>, b: bool)
    ensures
        final(out)@ == old(out)@ + bool_text(b),
{
    if b {
        push_str(out, "true");
        proof {
            reveal_strlit("true");
        }
    } else {
        push_str(out, "false");
        proof {
            reveal_strlit("false");
        }
    }
}

fn push_optional_bool(out: &mut Vec<char>, key: &str, v: Option<bool>)
    ensures
        final(out)@ == old(out)@ + optional_bool(key@, v),
{
    match v {
        Some(b) => {
            let ghost start = out@;
            push_scalar_start(out, &[], key);
            push_bool(out, b);
            out.push('\n');
            assert(out@ =~= start + scalar(key@, bool_text(b)));
        },
        None => {
            assert(final(out)@ =~= old(out)@ + Seq::<char>::empty());
        },
    }
}

fn push_text_field(out: &mut Vec<char>, ind: &[char], key: &str, v: &Option<String>, placeheld: bool)
    ensures
        final(out)@ == old(out)@ + match v {
            Some(s) => ind@ + scalar(
                key@,
                if placeheld {
                    quote_placeheld(s@)
                } else {
                    quote(s@)
                },
            ),
            None => Seq::empty(),
        },
{
    match v {
        Some(s) => {
            let ghost start = out@;
            let c = chars_of(s);
            push_scalar_start(out, ind, key);
            if placeheld {
                push_placeheld(out, &c);
            } else {
                push_quoted(out, &c);
            }
            out.push('\n');
            assert(out@ =~= start + ind@ + scalar(
                key@,
                if placeheld {
                    quote_placeheld(s@)
                } else {
                    quote(s@)
                },
            ));
        },
        None => {
            assert(final(out)@ =~= old(out)@ + Seq::<char>::empty());
        },
    }
}

fn encode_ready_probe_exec(probe: &Option<ReadyProbeEntry>) -> (r: Vec<char>)
    ensures
        r@ == encode_ready_probe(crate::apps_file::opt_probe_view(*probe)),
{
    reveal(encode_ready_probe);
    let Some(section) = probe else {
        return Vec::new();
    };
    let ind = [' ', ' '];
    assert(ind@ == indent());
    let mut body: Vec<char> = Vec::new();
    let empty: Vec<String> = Vec::new();
    let exec = match &section.command {
        Some(c) => c,
        None => &empty,
    };
    push_sequence(&mut body, &ind, "exec", exec, false);
    push_text_field(&mut body, &ind, "tcp", &section.tcp, false);
    assert(body@ =~= sequence(indent(), "exec"@, exec.deep_view(), false) + match section.tcp {
        Some(t) => nested("tcp"@, quote(t@)),
        None => Seq::empty(),
    });
    if body.len() == 0 {
        return body;
    }
    let mut out: Vec<char> = Vec::new();
    push_str(&mut out, "ready_probe");
    out.push(':');
    out.push('\n');
    push_all(&mut out, &body);
    assert(out@ =~= with_header("ready_probe"@, body@));
    out
}

#[verifier::spinoff_prover]
#[verifier::rlimit(40)]
fn encode_sandbox_exec(sandbox: &Option<SandboxEntry>) -> (r: Vec<char>)
    ensures
        r@ == encode_sandbox(crate::apps_file::opt_sandbox_view(*sandbox)),
{
    reveal(encode_sandbox);
    let Some(section) = sandbox else {
        return Vec::new();
    };
    let ind = [' ', ' '];
    assert(ind@ == indent());
    let mut body: Vec<char> = Vec::new();
    push_text_field(&mut body, &ind, "mode", &section.mode, false);
    push_text_field(&mut body, &ind, "read", &section.read, false);
    let ghost after_read = body@;
    match section.network {
        Some(n) => {
            push_scalar_start(&mut body, &ind, "network");
            push_bool(&mut body, n);
            body.push('\n');
            assert(body@ =~= after_read + nested("network"@, bool_text(n)));
        },
        None => {},
    }
    let empty: Vec<String> = Vec::new();
    let writable = match &section.writable_roots {
        Some(r) => r,
        None => &empty,
    };
    let readable = match &section.readable_roots {
        Some(r) => r,
        None => &empty,
    };
    push_sequence(&mut body, &ind, "writable_roots", writable, true);
    push_sequence(&mut body, &ind, "readable_roots", readable, true);
    let ghost sv = section@;
    assert(body@ =~= (match sv.mode {
        Some(m) => nested("mode"@, quote(m)),
        None => Seq::empty(),
    }) + (match sv.read {
        Some(r) => nested("read"@, quote(r)),
        None => Seq::empty(),
    }) + (match sv.network {
        Some(n) => nested("network"@, bool_text(n)),
        None => Seq::empty(),
    }) + sequence(indent(), "writable_roots"@, writable.deep_view(), true) + sequence(
        indent(),
        "readable_roots"@,
        readable.deep_view(),
        true,
    ));
    if body.len() == 0 {
        return body;
    }
    let mut out: Vec<char> = Vec::new();
    push_str(&mut out, "sandbox");
    out.push(':');
    out.push('\n');
    push_all(&mut out, &body);
    assert(out@ =~= with_header("sandbox"@, body@));
    out
}

#[verifier::spinoff_prover]
#[verifier::rlimit(40)]
fn push_entry_head(out: &mut Vec<char>, entry: &AppEntry)
    ensures
        final(out)@ == old(out)@ + entry_head(entry@),
{
    let none: [char; 0] = [];
    assert(none@ == Seq::<char>::empty());
    let ghost start = out@;
    let ghost e = entry@;
    let name = chars_of(&entry.name);
    let script = chars_of(&entry.script);
    push_scalar_start(out, &none, "name");
    push_quoted(out, &name);
    out.push('\n');
    let ghost p1 = scalar("name"@, quote(e.name));
    assert(out@ =~= start + p1);
    push_scalar_start(out, &none, "script");
    push_placeheld(out, &script);
    out.push('\n');
    let ghost p2 = p1 + scalar("script"@, quote_placeheld(e.script));
    assert(out@ =~= start + p2);
    push_text_field(out, &none, "cwd", &entry.cwd, true);
    let ghost p3 = p2 + placeheld_text("cwd"@, e.cwd);
    assert(out@ =~= start + p3);
    push_sequence(out, &none, "args", &entry.args, true);
    let ghost p4 = p3 + sequence(Seq::empty(), "args"@, e.args, true);
    assert(out@ =~= start + p4);
    push_sequence(out, &none, "depends_on", &entry.depends_on, false);
    let ghost p5 = p4 + sequence(Seq::empty(), "depends_on"@, e.depends_on, false);
    assert(out@ =~= start + p5);
    assert(p5 == entry_head(e));
}

fn push_entry_numbers(out: &mut Vec<char>, entry: &AppEntry)
    ensures
        final(out)@ == old(out)@ + entry_numbers(entry@),
{
    let ghost start = out@;
    let ghost e = entry@;
    push_optional_bool(out, "autorestart", entry.autorestart);
    let ghost p1 = optional_bool("autorestart"@, e.autorestart);
    push_optional_number(out, "min_uptime_ms", entry.min_uptime_ms);
    let ghost p2 = p1 + optional_number("min_uptime_ms"@, e.min_uptime_ms);
    assert(out@ =~= start + p2);
    let restarts: Option<u64> = match entry.max_restarts {
        Some(n) => Some(n as u64),
        None => None,
    };
    push_optional_number(out, "max_restarts", restarts);
    let ghost p3 = p2 + optional_number("max_restarts"@, restarts);
    assert(out@ =~= start + p3);
    push_optional_number(out, "restart_delay_ms", entry.restart_delay_ms);
    let ghost p4 = p3 + optional_number("restart_delay_ms"@, e.restart_delay_ms);
    assert(out@ =~= start + p4);
    push_optional_number(out, "max_restart_delay_ms", entry.max_restart_delay_ms);
    let ghost p5 = p4 + optional_number("max_restart_delay_ms"@, e.max_restart_delay_ms);
    assert(out@ =~= start + p5);
    assert(p5 == entry_numbers(e));
}

fn push_entry_tail(out: &mut Vec<char>, entry: &AppEntry)
    ensures
        final(out)@ == old(out)@ + entry_tail(entry@),
{
    let none: [char; 0] = [];
    assert(none@ == Seq::<char>::empty());
    let ghost start = out@;
    let ghost e = entry@;
    push_text_field(out, &none, "schedule", &entry.schedule, false);
    let ghost p1 = optional_text("schedule"@, e.schedule);
    assert(out@ =~= start + p1);
    push_text_field(out, &none, "max_memory", &entry.max_memory, false);
    let ghost p2 = p1 + optional_text("max_memory"@, e.max_memory);
    assert(out@ =~= start + p2);
    push_number_sequence(out, "stop_exit_codes", &entry.stop_exit_codes);
    let ghost p3 = p2 + number_sequence("stop_exit_codes"@, e.stop_exit_codes);
    assert(out@ =~= start + p3);
    push_optional_number(out, "listen_timeout_ms", entry.listen_timeout_ms);
    let ghost p4 = p3 + optional_number("listen_timeout_ms"@, e.listen_timeout_ms);
    assert(out@ =~= start + p4);
    let probe = encode_ready_probe_exec(&entry.ready_probe);
    push_all(out, &probe);
    let ghost p5 = p4 + encode_ready_probe(e.ready_probe);
    assert(out@ =~= start + p5);
    let sandbox = encode_sandbox_exec(&entry.sandbox);
    push_all(out, &sandbox);
    let ghost p6 = p5 + encode_sandbox(e.sandbox);
    assert(out@ =~= start + p6);
    assert(p6 == entry_tail(e));
}

/// The text of the service file that declares `entry`.
pub fn encode_service_file(entry: &AppEntry) -> (r: String)
    ensures
        r@ == encode_entry(entry@),
{
    let mut out: Vec<char> = Vec::new();
    push_entry_head(&mut out, entry);
    push_entry_numbers(&mut out, entry);
    push_entry_tail(&mut out, entry);
    assert(out@ =~= encode_entry(entry@));
    string_of(&out)
}

// ---------------------------------------------------------------------------
// Comparing two service files.
// ---------------------------------------------------------------------------

pub open spec fn line_at(ls: Seq<Seq<char>>, i: int) -> Option<Seq<char>> {
    if 0 <= i < ls.len() {
        Some(ls[i])
    } else {
        None
    }
}

/// What line `i` contributes to a diff: nothing when both sides agree,
/// else the old line marked `-` and the new line marked `+`.
pub open spec fn diff_step(before: Seq<Seq<char>>, after: Seq<Seq<char>>, i: int) -> Seq<Seq<char>> {
    let removed = line_at(before, i);
    let added = line_at(after, i);
    if removed == added {
        Seq::empty()
    } else {
        (match removed {
            Some(l) => seq![seq!['-'] + l],
            None => Seq::empty(),
        }) + (match added {
            Some(l) => seq![seq!['+'] + l],
            None => Seq::empty(),
        })
    }
}

/// The diff of the first `n` line positions.
pub open spec fn diff_upto(before: Seq<Seq<char>>, after: Seq<Seq<char>>, n: nat) -> Seq<Seq<char>>
    decreases n,
{
    if n == 0 {
        Seq::empty()
    } else {
        diff_upto(before, after, (n - 1) as nat) + diff_step(before, after, n - 1)
    }
}

pub open spec fn diff_spec(old_text: Seq<char>, new_text: Seq<char>) -> Seq<Seq<char>> {
    let before = lines(old_text);
    let after = lines(new_text);
    diff_upto(
        before,
        after,
        if before.len() >= after.len() {
            before.len()
        } else {
            after.len()
        },
    )
}

/// The lines that differ between two texts, position by position.
pub fn diff_lines(old_text: &str, new_text: &str) -> (r: Vec<String>)
    ensures
        r.deep_view() == diff_spec(old_text@, new_text@),
{
    let oc = chars_of(old_text);
    let nc = chars_of(new_text);
    let before = lines_exec(&oc);
    let after = lines_exec(&nc);
    let ghost bv = views(before@);
    let ghost av = views(after@);
    let total = if before.len() >= after.len() {
        before.len()
    } else {
        after.len()
    };
    let mut diff: Vec<String> = Vec::new();
    let mut index: usize = 0;
    while index < total
        invariant
            index <= total,
            total == if bv.len() >= av.len() {
                bv.len()
            } else {
                av.len()
            },
            bv == views(before@),
            av == views(after@),
            diff.deep_view() == diff_upto(bv, av, index as nat),
        decreases total - index,
    {
        let ghost start = diff.deep_view();
        let same = if index < before.len() && index < after.len() {
            same_chars(&before[index], &after[index])
        } else {
            false
        };
        assert(same == (line_at(bv, index as int) == line_at(av, index as int)));
        if !same {
            if index < before.len() {
                let mut line: Vec<char> = Vec::new();
                line.push('-');
                push_all(&mut line, &before[index]);
                let ghost lv = line@;
                diff.push(string_of(&line));
                assert(diff.deep_view() =~= start.push(lv));
            }
            let ghost mid = diff.deep_view();
            if index < after.len() {
                let mut line: Vec<char> = Vec::new();
                line.push('+');
                push_all(&mut line, &after[index]);
                let ghost lv = line@;
                diff.push(string_of(&line));
                assert(diff.deep_view() =~= mid.push(lv));
            }
        }
        assert(diff.deep_view() =~= start + diff_step(bv, av, index as int));
        index = index + 1;
    }
    diff
}

} // verus!
