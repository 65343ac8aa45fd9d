use vstd::prelude::*;

use crate::domain::{EnvDisplay, ProcessView};
use crate::presenter::{
    cpu_text, env_origin_text, format_cpu, format_env_origin, format_list, format_memory,
    format_pid, format_sandbox, format_stamp, format_uptime, list_text, max_of, memory_text,
    missing, stamp_shape, FOUR_DIGIT_YEAR_MAX_MS, pad_chars, pad_text, pid_text, sandbox_text, uptime_text, widest, MISSING,
};
use crate::text::{chars_of, decimal, join, join_exec, push_all, push_decimal, push_str, string_of};

verus! {

pub const ENV_LABEL: &'static str = "env";

/// The labels of the rows that describe a service, in order.
pub open spec fn describe_labels() -> Seq<Seq<char>> {
    seq![
        "id"@,
        "name"@,
        "status"@,
        "pid"@,
        "uptime"@,
        "memory"@,
        "cpu"@,
        "restarts"@,
        "unstable restarts"@,
        "schedule"@,
        "next fire"@,
        "script"@,
        "args"@,
        "cwd"@,
        "depends on"@,
        "sandbox"@,
        "writable roots"@,
        "env"@,
    ]
}

/// The values of those rows; `stamp` is the local time of the next run.
pub open spec fn describe_values(view: ProcessView, stamp: Seq<char>) -> Seq<Seq<char>> {
    seq![
        decimal(view.pm_id as nat),
        view.name@,
        view.status@,
        pid_text(view.pid),
        uptime_text(view.uptime_ms),
        memory_text(view.rss_kib),
        cpu_text(view.cpu_tenths),
        decimal(view.restart_time as nat),
        decimal(view.unstable_restarts as nat),
        match view.schedule {
            Some(s) => s@,
            None => missing(),
        },
        stamp,
        view.script@,
        list_text(view.args.deep_view()),
        view.cwd@,
        list_text(view.depends_on.deep_view()),
        sandbox_text(view.sandbox_mode@, view.sandbox_network),
        list_text(view.writable_roots.deep_view()),
        env_origin_text(view.env_origin, view.env_declared),
    ]
}

pub open spec fn char_counts(cells: Seq<Seq<char>>) -> Seq<usize> {
    cells.map_values(|c: Seq<char>| c.len() as usize)
}

/// Each label padded to the widest label, two spaces, then its value.
pub open spec fn labelled_lines(labels: Seq<Seq<char>>, values: Seq<Seq<char>>) -> Seq<Seq<char>> {
    let width = max_of(char_counts(labels)) as nat;
    Seq::new(labels.len(), |i: int| pad_text(labels[i], width) + "  "@ + values[i])
}

/// One environment value of a service, its key padded to `width`.
pub open spec fn env_line(entry: EnvDisplay, width: nat) -> Seq<char> {
    "env "@ + pad_text(entry.key@, width) + "  "@ + entry.value@ + "  ("@ + entry.scope@ + ")"@
}

/// The environment values of a service, one per line, keys aligned; empty
/// when there are none.
pub open spec fn env_block(shown: Seq<EnvDisplay>) -> Seq<char> {
    if shown.len() == 0 {
        Seq::empty()
    } else {
        let width = max_of(shown.map_values(|e: EnvDisplay| e.key@.len() as usize)) as nat;
        join(Seq::new(shown.len(), |i: int| env_line(shown[i], width)), seq!['\n'])
    }
}

/// The description of a service: a row per field, then its environment.
pub open spec fn describe_text(view: ProcessView, stamp: Seq<char>) -> Seq<char> {
    let fixed = join(labelled_lines(describe_labels(), describe_values(view, stamp)), seq!['\n']);
    let env = env_block(view.env@);
    if env.len() == 0 {
        fixed
    } else {
        fixed + seq!['\n'] + env
    }
}

pub open spec fn labels_of(rows: Seq<(&'static str, String)>) -> Seq<Seq<char>> {
    rows.map_values(|row: (&'static str, String)| row.0@)
}

pub open spec fn values_of(rows: Seq<(&'static str, String)>) -> Seq<Seq<char>> {
    rows.map_values(|row: (&'static str, String)| row.1@)
}

fn render_rows(rows: &Vec<(&'static str, String)>) -> (r: Vec<char>)
    ensures
        r@ == join(labelled_lines(labels_of(rows@), values_of(rows@)), seq!['\n']),
{
    let mut counts: Vec<usize> = Vec::new();
    let mut i: usize = 0;
    while i < rows.len()
        invariant
            i <= rows.len(),
            counts.len() == i,
            forall|k: int| 0 <= k < i ==> counts[k] == (#[trigger] rows[k]).0@.len(),
        decreases rows.len() - i,
    {
        let label = chars_of(rows[i].0);
        counts.push(label.len());
        i = i + 1;
    }
    assert(counts@ =~= char_counts(labels_of(rows@)));
    let width = widest(&counts);
    let mut lines: Vec<Vec<char>> = Vec::new();
    let mut k: usize = 0;
    while k < rows.len()
        invariant
            k <= rows.len(),
            width == max_of(char_counts(labels_of(rows@))),
            lines.len() == k,
            forall|m: int|
                0 <= m < k ==> (#[trigger] lines[m])@ == pad_text(rows[m].0@, width as nat)
                    + "  "@ + rows[m].1@,
        decreases rows.len() - k,
    {
        let label = chars_of(rows[k].0);
        let mut line = pad_chars(&label, width);
        push_str(&mut line, "  ");
        push_str(&mut line, &rows[k].1);
        lines.push(line);
        k = k + 1;
    }
    assert(crate::text::views(lines@) =~= labelled_lines(labels_of(rows@), values_of(rows@)));
    let nl = ['\n'];
    assert(nl@ =~= seq!['\n']);
    join_exec(&lines, &nl)
}

fn render_env_block(shown: &Vec<EnvDisplay>) -> (r: Vec<char>)
    ensures
        r@ == env_block(shown@),
{
    if shown.len() == 0 {
        return Vec::new();
    }
    let mut counts: Vec<usize> = Vec::new();
    let mut i: usize = 0;
    while i < shown.len()
        invariant
            i <= shown.len(),
            counts.len() == i,
            forall|k: int| 0 <= k < i ==> counts[k] == (#[trigger] shown[k]).key@.len(),
        decreases shown.len() - i,
    {
        let key = chars_of(&shown[i].key);
        counts.push(key.len());
        i = i + 1;
    }
    assert(counts@ =~= shown@.map_values(|e: EnvDisplay| e.key@.len() as usize));
    let width = widest(&counts);
    let mut lines: Vec<Vec<char>> = Vec::new();
    let mut k: usize = 0;
    while k < shown.len()
        invariant
            k <= shown.len(),
            width == max_of(shown@.map_values(|e: EnvDisplay| e.key@.len() as usize)),
            lines.len() == k,
            forall|m: int|
                0 <= m < k ==> (#[trigger] lines[m])@ == env_line(shown[m], width as nat),
        decreases shown.len() - k,
    {
        let mut line = chars_of("env ");
        let key = chars_of(&shown[k].key);
        let padded = pad_chars(&key, width);
        push_all(&mut line, &padded);
        push_str(&mut line, "  ");
        push_str(&mut line, &shown[k].value);
        push_str(&mut line, "  (");
        push_str(&mut line, &shown[k].scope);
        push_str(&mut line, ")");
        assert(line@ =~= env_line(shown[k as int], width as nat));
        lines.push(line);
        k = k + 1;
    }
    assert(crate::text::views(lines@) =~= Seq::new(
        shown@.len(),
        |m: int| env_line(shown@[m], width as nat),
    ));
    let nl = ['\n'];
    assert(nl@ =~= seq!['\n']);
    join_exec(&lines, &nl)
}

fn describe_rows(view: &ProcessView, stamp: &str) -> (r: Vec<(&'static str, String)>)
    ensures
        labels_of(r@) == describe_labels(),
        values_of(r@) == describe_values(*view, stamp@),
{
    let schedule = match &view.schedule {
        Some(s) => s.clone(),
        None => {
            proof {
                reveal_strlit("-");
            }
            MISSING.to_string()
        },
    };
    let rows: Vec<(&'static str, String)> = vec![
        ("id", crate::text::decimal_string(view.pm_id as u64)),
        ("name", view.name.clone()),
        ("status", view.status.clone()),
        ("pid", format_pid(view.pid)),
        ("uptime", format_uptime(view.uptime_ms)),
        ("memory", format_memory(view.rss_kib)),
        ("cpu", format_cpu(view.cpu_tenths)),
        ("restarts", crate::text::decimal_string(view.restart_time as u64)),
        ("unstable restarts", crate::text::decimal_string(view.unstable_restarts as u64)),
        ("schedule", schedule),
        ("next fire", stamp.to_string()),
        ("script", view.script.clone()),
        ("args", format_list(&view.args)),
        ("cwd", view.cwd.clone()),
        ("depends on", format_list(&view.depends_on)),
        ("sandbox", format_sandbox(&view.sandbox_mode, view.sandbox_network)),
        ("writable roots", format_list(&view.writable_roots)),
        (ENV_LABEL, format_env_origin(view.env_origin, view.env_declared)),
    ];
    proof {
        reveal_strlit("env");
    }
    assert(labels_of(rows@) =~= describe_labels());
    assert forall|i: int| 0 <= i < 18 implies values_of(rows@)[i] == describe_values(
        *view,
        stamp@,
    )[i] by {}
    assert(values_of(rows@) =~= describe_values(*view, stamp@));
    rows
}

/// The description of a service, given the local time of its next run.
pub fn render_describe_with(view: &ProcessView, stamp: &str) -> (r: String)
    ensures
        r@ == describe_text(*view, stamp@),
{
    let rows = describe_rows(view, stamp);
    let fixed = render_rows(&rows);
    let environment = render_env_block(&view.env);
    if environment.len() == 0 {
        return string_of(&fixed);
    }
    let mut out = fixed;
    out.push('\n');
    push_all(&mut out, &environment);
    string_of(&out)
}

/// What holds of a date-and-time cell whatever the host's time zone: `-`
/// without an instant, and `YYYY-mm-dd HH:MM:SS UTC+hh:mm` for an instant
/// from the epoch to the year 9999.
pub open spec fn stamp_fits(at_ms: Option<u64>, stamp: Seq<char>) -> bool {
    &&& at_ms is None ==> stamp == missing()
    &&& at_ms matches Some(ms) ==> (ms > i64::MAX ==> stamp == missing())
    &&& at_ms matches Some(ms) ==> (ms <= FOUR_DIGIT_YEAR_MAX_MS ==> stamp_shape(stamp))
}

/// The description of a service, with the local time of its next run.
pub fn render_describe(view: &ProcessView) -> (r: String)
    ensures
        exists|stamp: Seq<char>|
            stamp_fits(view.next_fire_ms, stamp) && r@ == describe_text(*view, stamp),
{
    let stamp = format_stamp(view.next_fire_ms);
    let r = render_describe_with(view, &stamp);
    assert(stamp_fits(view.next_fire_ms, stamp@));
    r
}

} // verus!
