use std::collections::BTreeMap;
use std::collections::HashMap;

use vstd::prelude::*;

use crate::domain::{all_digits, parse_unsigned, parse_unsigned_exec, Liveness, ResourceSample};
use crate::text::{
    chars_of, decimal, is_ascii_digit, join, join_exec, lines, lines_exec, push_decimal,
    split_once, split_once_exec, string_of, trim, trim_exec, trim_start, views, words, words_exec,
};

verus! {

/// The program that reports on processes.
pub const PS_PROGRAM: &'static str = "/bin/ps";

/// The exit code with which `ps` says that none of the pids exist.
pub const NO_SUCH_PROCESS_CODE: i32 = 1;

/// Asks `ps` whether managed processes are alive and what they use.
#[derive(Clone, Debug)]
pub struct PsProcessProbe {
    program: String,
    timeout_ms: u64,
    poll_interval_ms: u64,
}

impl PsProcessProbe {
    pub closed spec fn program_view(&self) -> Seq<char> {
        self.program@
    }

    pub closed spec fn timeout_view(&self) -> u64 {
        self.timeout_ms
    }

    pub closed spec fn poll_view(&self) -> u64 {
        self.poll_interval_ms
    }

    pub fn new(program: String, timeout_ms: u64, poll_interval_ms: u64) -> (r: PsProcessProbe)
        ensures
            r.program_view() == program@,
            r.timeout_view() == timeout_ms,
            r.poll_view() == poll_interval_ms,
    {
        PsProcessProbe { program, timeout_ms, poll_interval_ms }
    }

    /// The probe that runs the system's `ps`.
    pub fn with_timeout(timeout_ms: u64, poll_interval_ms: u64) -> (r: PsProcessProbe)
        ensures
            r.program_view() == PS_PROGRAM@,
            r.timeout_view() == timeout_ms,
            r.poll_view() == poll_interval_ms,
    {
        PsProcessProbe::new(PS_PROGRAM.to_string(), timeout_ms, poll_interval_ms)
    }

    pub fn program(&self) -> (r: &str)
        ensures
            r@ == self.program_view(),
    {
        self.program.as_str()
    }

    pub fn timeout_ms(&self) -> (r: u64)
        ensures
            r == self.timeout_view(),
    {
        self.timeout_ms
    }

    pub fn poll_interval_ms(&self) -> (r: u64)
        ensures
            r == self.poll_view(),
    {
        self.poll_interval_ms
    }
}

/// Whether an answer of `ps` can be read: it succeeded, or it only said
/// that none of the pids exist.
pub fn ps_answer_usable(success: bool, code: Option<i32>) -> (r: bool)
    ensures
        r == (success || code == Some(NO_SUCH_PROCESS_CODE)),
{
    success || code == Some(NO_SUCH_PROCESS_CODE)
}

/// How long to sleep before asking again whether a process is gone; `None`
/// when there is nothing more to wait for.
pub fn next_wait(gone: bool, remaining_ms: u64, poll_interval_ms: u64) -> (r: Option<u64>)
    ensures
        gone || remaining_ms == 0 <==> r is None,
        r matches Some(step) ==> step == if poll_interval_ms == 0 {
            1
        } else if remaining_ms < poll_interval_ms {
            remaining_ms
        } else {
            poll_interval_ms
        },
{
    if gone || remaining_ms == 0 {
        return None;
    }
    let step = if poll_interval_ms == 0 {
        1
    } else {
        poll_interval_ms
    };
    Some(
        if remaining_ms < step {
            remaining_ms
        } else {
            step
        },
    )
}

pub open spec fn decimals(pids: Seq<u32>) -> Seq<Seq<char>> {
    pids.map_values(|p: u32| decimal(p as nat))
}

/// The pids in decimal, separated by commas.
pub fn join_pids(pids: &[u32]) -> (r: String)
    ensures
        r@ == join(decimals(pids@), seq![',']),
{
    let mut parts: Vec<Vec<char>> = Vec::new();
    let mut i: usize = 0;
    while i < pids.len()
        invariant
            i <= pids.len(),
            views(parts@) == decimals(pids@).take(i as int),
        decreases pids.len() - i,
    {
        let mut d: Vec<char> = Vec::new();
        push_decimal(&mut d, pids[i] as u64);
        let ghost before = views(parts@);
        parts.push(d);
        assert(views(parts@) =~= before.push(decimal(pids@[i as int] as nat)));
        assert(decimals(pids@).take(i + 1) =~= decimals(pids@).take(i as int).push(
            decimal(pids@[i as int] as nat),
        ));
        i = i + 1;
    }
    assert(decimals(pids@).take(pids.len() as int) =~= decimals(pids@));
    let comma = [','];
    assert(comma@ =~= seq![',']);
    let joined = join_exec(&parts, &comma);
    string_of(&joined)
}

// ---------------------------------------------------------------------------
// Resource samples.
// ---------------------------------------------------------------------------

/// `n`, or the largest `u32` when `n` is larger.
pub open spec fn clamp_u32(n: nat) -> u32 {
    if n > u32::MAX {
        u32::MAX
    } else {
        n as u32
    }
}

/// `n`, or the largest `u64` when `n` is larger.
pub open spec fn clamp_u64(n: nat) -> u64 {
    if n > u64::MAX {
        u64::MAX
    } else {
        n as u64
    }
}

/// A CPU share as `ps` prints it, in tenths of a percent: the whole part and
/// the first decimal, the largest `u32` when it does not fit.
pub open spec fn tenths_of(raw: Seq<char>) -> Option<u32> {
    let (whole, fraction) = match split_once(raw, seq!['.']) {
        Some(parts) => parts,
        None => (raw, seq!['0']),
    };
    match parse_unsigned(whole, u32::MAX as nat) {
        None => None,
        Some(w) => if fraction.len() > 0 && is_ascii_digit(fraction[0]) {
            Some(clamp_u32(w * 10 + (fraction[0] as nat - '0' as nat) as nat))
        } else {
            None
        },
    }
}

/// Reads a CPU share in tenths of a percent.
pub fn parse_tenths(raw: &[char]) -> (r: Option<u32>)
    ensures
        r == tenths_of(raw@),
{
    let dot = ['.'];
    assert(dot@ =~= seq!['.']);
    let ghost parts = match split_once(raw@, seq!['.']) {
        Some(p) => p,
        None => (raw@, seq!['0']),
    };
    let (whole, fraction) = match split_once_exec(raw, &dot) {
        Some(parts) => parts,
        None => {
            let mut zero: Vec<char> = Vec::new();
            zero.push('0');
            assert(zero@ =~= seq!['0']);
            (crate::text::slice_of(raw, 0, raw.len()), zero)
        },
    };
    assert(whole@ == parts.0 && fraction@ == parts.1);
    let w = match parse_unsigned_exec(&whole, u32::MAX as u64) {
        Some(w) => w,
        None => {
            return None;
        },
    };
    if fraction.len() == 0 || !('0' <= fraction[0] && fraction[0] <= '9') {
        return None;
    }
    assert(fraction@[0] == fraction[0]);
    let t = (fraction[0] as u32 - '0' as u32) as u64;
    let total = w * 10 + t;
    if total > u32::MAX as u64 {
        Some(u32::MAX)
    } else {
        Some(total as u32)
    }
}

/// One line of `ps -o pid=,pgid=,rss=,pcpu=`.
#[derive(Clone, Copy, Debug, PartialEq, Eq, Structural)]
pub struct GroupRow {
    pub pid: u32,
    pub pgid: u32,
    pub sample: ResourceSample,
}

/// The row a line describes: four fields, the first three whole numbers and
/// the last a CPU share; further fields are ignored.
pub open spec fn group_row_of(line: Seq<char>) -> Option<GroupRow> {
    let w = words(line);
    if w.len() < 4 {
        None
    } else {
        match (
            parse_unsigned(w[0], u32::MAX as nat),
            parse_unsigned(w[1], u32::MAX as nat),
            parse_unsigned(w[2], u64::MAX as nat),
            tenths_of(w[3]),
        ) {
            (Some(pid), Some(pgid), Some(rss), Some(cpu)) => Some(
                GroupRow {
                    pid: pid as u32,
                    pgid: pgid as u32,
                    sample: ResourceSample { rss_kib: rss as u64, cpu_tenths: cpu },
                },
            ),
            _ => None,
        }
    }
}

/// Reads one line of a resource report.
pub fn parse_group_row(line: &[char]) -> (r: Option<GroupRow>)
    ensures
        r == group_row_of(line@),
{
    let fields = words_exec(line);
    if fields.len() < 4 {
        return None;
    }
    proof {
        assert(fields@[0]@ == words(line@)[0]);
        assert(fields@[1]@ == words(line@)[1]);
        assert(fields@[2]@ == words(line@)[2]);
        assert(fields@[3]@ == words(line@)[3]);
    }
    let pid = parse_unsigned_exec(&fields[0], u32::MAX as u64)?;
    let pgid = parse_unsigned_exec(&fields[1], u32::MAX as u64)?;
    let rss = parse_unsigned_exec(&fields[2], u64::MAX)?;
    let cpu = parse_tenths(&fields[3])?;
    Some(
        GroupRow {
            pid: pid as u32,
            pgid: pgid as u32,
            sample: ResourceSample { rss_kib: rss, cpu_tenths: cpu },
        },
    )
}

/// The rows of the lines that can be read, in order.
pub open spec fn rows_of(ls: Seq<Seq<char>>) -> Seq<GroupRow>
    decreases ls.len(),
{
    if ls.len() == 0 {
        Seq::empty()
    } else {
        rows_of(ls.drop_last()) + match group_row_of(ls.last()) {
            Some(row) => seq![row],
            None => Seq::empty(),
        }
    }
}

/// Reads a resource report, skipping the lines that are not rows.
pub fn parse_group_rows(stdout: &str) -> (r: Vec<GroupRow>)
    ensures
        r@ == rows_of(lines(stdout@)),
{
    let text = chars_of(stdout);
    let all = lines_exec(&text);
    let ghost ls = lines(stdout@);
    let mut rows: Vec<GroupRow> = Vec::new();
    let mut i: usize = 0;
    while i < all.len()
        invariant
            i <= all.len(),
            views(all@) == ls,
            rows@ == rows_of(ls.take(i as int)),
        decreases all.len() - i,
    {
        let ghost prefix = ls.take(i + 1);
        assert(prefix.drop_last() =~= ls.take(i as int));
        assert(prefix.last() == all@[i as int]@);
        match parse_group_row(&all[i]) {
            Some(row) => {
                rows.push(row);
            },
            None => {},
        }
        assert(rows@ =~= rows_of(prefix));
        i = i + 1;
    }
    assert(ls.take(all.len() as int) =~= ls);
    rows
}

/// The sample of the last row about `pid`.
pub open spec fn own_sample(rows: Seq<GroupRow>, pid: u32) -> Option<ResourceSample>
    decreases rows.len(),
{
    if rows.len() == 0 {
        None
    } else if rows.last().pid == pid {
        Some(rows.last().sample)
    } else {
        own_sample(rows.drop_last(), pid)
    }
}

/// Whether some row belongs to the process group `pgid`.
pub open spec fn has_group(rows: Seq<GroupRow>, pgid: u32) -> bool {
    exists|i: int| 0 <= i < rows.len() && (#[trigger] rows[i]).pgid == pgid
}

/// The memory of the rows of group `pgid`, added up.
pub open spec fn group_rss(rows: Seq<GroupRow>, pgid: u32) -> nat
    decreases rows.len(),
{
    if rows.len() == 0 {
        0
    } else {
        group_rss(rows.drop_last(), pgid) + if rows.last().pgid == pgid {
            rows.last().sample.rss_kib as nat
        } else {
            0
        }
    }
}

/// The CPU shares of the rows of group `pgid`, added up.
pub open spec fn group_cpu(rows: Seq<GroupRow>, pgid: u32) -> nat
    decreases rows.len(),
{
    if rows.len() == 0 {
        0
    } else {
        group_cpu(rows.drop_last(), pgid) + if rows.last().pgid == pgid {
            rows.last().sample.cpu_tenths as nat
        } else {
            0
        }
    }
}

/// What a service led by `pid` uses: the totals of the group it leads, or
/// its own sample when it leads none; nothing when `ps` did not list it.
pub open spec fn sample_of(rows: Seq<GroupRow>, pid: u32) -> Option<ResourceSample> {
    match own_sample(rows, pid) {
        None => None,
        Some(mine) => if has_group(rows, pid) {
            Some(
                ResourceSample {
                    rss_kib: clamp_u64(group_rss(rows, pid)),
                    cpu_tenths: clamp_u32(group_cpu(rows, pid)),
                },
            )
        } else {
            Some(mine)
        },
    }
}

/// The samples of the targets that `ps` listed.
pub open spec fn totals_for(rows: Seq<GroupRow>, targets: Seq<u32>) -> Map<u32, ResourceSample> {
    Map::new(
        |p: u32| targets.contains(p) && sample_of(rows, p) is Some,
        |p: u32| sample_of(rows, p)->0,
    )
}

fn sample_for(rows: &Vec<GroupRow>, pid: u32) -> (r: Option<ResourceSample>)
    ensures
        r == sample_of(rows@, pid),
{
    let mut own: Option<ResourceSample> = None;
    let mut found = false;
    let mut rss: u64 = 0;
    let mut cpu: u32 = 0;
    let mut i: usize = 0;
    while i < rows.len()
        invariant
            i <= rows.len(),
            own == own_sample(rows@.take(i as int), pid),
            found == has_group(rows@.take(i as int), pid),
            rss == clamp_u64(group_rss(rows@.take(i as int), pid)),
            cpu == clamp_u32(group_cpu(rows@.take(i as int), pid)),
        decreases rows.len() - i,
    {
        let row = rows[i];
        let ghost before = rows@.take(i as int);
        let ghost after = rows@.take(i + 1);
        assert(after.drop_last() =~= before);
        assert(after.last() == row);
        if row.pid == pid {
            own = Some(row.sample);
        }
        if row.pgid == pid {
            found = true;
            rss = rss.saturating_add(row.sample.rss_kib);
            cpu = cpu.saturating_add(row.sample.cpu_tenths);
            assert(after[i as int].pgid == pid);
        } else {
            assert forall|k: int| 0 <= k < after.len() && (#[trigger] after[k]).pgid == pid implies 0
                <= k < before.len() && before[k].pgid == pid by {}
        }
        i = i + 1;
    }
    assert(rows@.take(rows.len() as int) =~= rows@);
    match own {
        None => None,
        Some(mine) => if found {
            Some(ResourceSample { rss_kib: rss, cpu_tenths: cpu })
        } else {
            Some(mine)
        },
    }
}

/// What each target uses, by pid, for the targets `ps` listed.
pub fn group_totals_for(rows: &Vec<GroupRow>, targets: &[u32]) -> (r: BTreeMap<
    u32,
    ResourceSample,
>)
    ensures
        r@ == totals_for(rows@, targets@),
{
    broadcast use vstd::std_specs::btree::group_btree_axioms;

    let mut r: BTreeMap<u32, ResourceSample> = BTreeMap::new();
    let mut i: usize = 0;
    while i < targets.len()
        invariant
            i <= targets.len(),
            r@ == totals_for(rows@, targets@.take(i as int)),
        decreases targets.len() - i,
    {
        let pid = targets[i];
        let ghost before = targets@.take(i as int);
        let ghost after = targets@.take(i + 1);
        assert(after =~= before.push(pid));
        assert forall|p: u32| after.contains(p) <==> (before.contains(p) || p == pid) by {
            if after.contains(p) {
                let k = choose|k: int| 0 <= k < after.len() && after[k] == p;
                if k < before.len() {
                    assert(before[k] == p);
                }
            }
            if before.contains(p) {
                let k = choose|k: int| 0 <= k < before.len() && before[k] == p;
                assert(after[k] == p);
            }
            if p == pid {
                assert(after[i as int] == p);
            }
        }
        match sample_for(rows, pid) {
            Some(sample) => {
                r.insert(pid, sample);
                assert(r@ =~= totals_for(rows@, after));
            },
            None => {
                assert(r@ =~= totals_for(rows@, after));
            },
        }
        i = i + 1;
    }
    assert(targets@.take(targets.len() as int) =~= targets@);
    r
}


// ---------------------------------------------------------------------------
// Liveness reports.
// ---------------------------------------------------------------------------

/// The pid and start token one line of `ps -o pid=,lstart=` reports: the
/// text before the first space after leading blanks, and the rest trimmed.
pub open spec fn report_entry(line: Seq<char>) -> Option<(u32, Seq<char>)> {
    match split_once(trim_start(line), seq![' ']) {
        None => None,
        Some((pid, rest)) => if trim(rest).len() == 0 {
            None
        } else {
            match parse_unsigned(pid, u32::MAX as nat) {
                Some(p) => Some((p as u32, trim(rest))),
                None => None,
            }
        },
    }
}

/// The start token of each pid the lines report; a later line wins.
pub open spec fn report_of(ls: Seq<Seq<char>>) -> Map<u32, Seq<char>>
    decreases ls.len(),
{
    if ls.len() == 0 {
        Map::empty()
    } else {
        let m = report_of(ls.drop_last());
        match report_entry(ls.last()) {
            Some((pid, token)) => m.insert(pid, token),
            None => m,
        }
    }
}

pub open spec fn texts(m: Map<u32, String>) -> Map<u32, Seq<char>> {
    Map::new(|k: u32| m.dom().contains(k), |k: u32| m[k]@)
}

fn report_line(line: &[char]) -> (r: Option<(u32, String)>)
    ensures
        match r {
            Some((pid, token)) => report_entry(line@) == Some((pid, token@)),
            None => report_entry(line@) is None,
        },
{
    let start = crate::text::trim_start_exec(line);
    let space = [' '];
    assert(space@ =~= seq![' ']);
    let (pid, rest) = split_once_exec(&start, &space)?;
    let token = trim_exec(&rest);
    if token.len() == 0 {
        return None;
    }
    let p = parse_unsigned_exec(&pid, u32::MAX as u64)?;
    Some((p as u32, string_of(&token)))
}

/// The start token of each pid a liveness report lists.
pub fn parse_report(stdout: &str) -> (r: HashMap<u32, String>)
    ensures
        texts(r@) == report_of(lines(stdout@)),
{
    broadcast use vstd::std_specs::hash::group_hash_axioms;

    let text = chars_of(stdout);
    let all = lines_exec(&text);
    let ghost ls = lines(stdout@);
    let mut r: HashMap<u32, String> = HashMap::new();
    assert(texts(r@) =~= report_of(ls.take(0)));
    let mut i: usize = 0;
    while i < all.len()
        invariant
            i <= all.len(),
            views(all@) == ls,
            texts(r@) == report_of(ls.take(i as int)),
        decreases all.len() - i,
    {
        let ghost prefix = ls.take(i + 1);
        assert(prefix.drop_last() =~= ls.take(i as int));
        assert(prefix.last() == all@[i as int]@);
        match report_line(&all[i]) {
            Some((pid, token)) => {
                let ghost tv = token@;
                r.insert(pid, token);
                assert(texts(r@) =~= report_of(ls.take(i as int)).insert(pid, tv));
            },
            None => {},
        }
        assert(texts(r@) =~= report_of(prefix));
        i = i + 1;
    }
    assert(ls.take(all.len() as int) =~= ls);
    r
}

/// Whether `l` tells what the report says of `pid`: alive with the token it
/// lists, or gone when it lists none.
pub open spec fn seen_in(l: Liveness, report: Map<u32, Seq<char>>, pid: u32) -> bool {
    if report.dom().contains(pid) {
        l matches Liveness::Alive(token) && token@ == report[pid]
    } else {
        l is Gone
    }
}

/// Alive with the token `ps` reported, or gone when it reported none.
pub fn seen_as(token: Option<&String>) -> (r: Liveness)
    ensures
        match token {
            Some(t) => r matches Liveness::Alive(s) && s@ == t@,
            None => r is Gone,
        },
{
    match token {
        Some(seen) => Liveness::Alive(seen.clone()),
        None => Liveness::Gone,
    }
}

/// Every pid marked unreadable.
pub fn unreadable(pids: &[u32]) -> (r: HashMap<u32, Liveness>)
    ensures
        r@.dom() == pids@.to_set(),
        forall|p: u32| pids@.contains(p) ==> r@[p] is Unreadable,
{
    broadcast use vstd::std_specs::hash::group_hash_axioms;

    let mut r: HashMap<u32, Liveness> = HashMap::new();
    let mut i: usize = 0;
    while i < pids.len()
        invariant
            i <= pids.len(),
            r@.dom() == pids@.take(i as int).to_set(),
            forall|p: u32| pids@.take(i as int).contains(p) ==> r@[p] is Unreadable,
        decreases pids.len() - i,
    {
        let pid = pids[i];
        r.insert(pid, Liveness::Unreadable);
        proof {
            let before = pids@.take(i as int);
            let after = pids@.take(i + 1);
            assert(after =~= before.push(pid));
            assert forall|p: u32| after.contains(p) <==> (before.contains(p) || p == pid) by {
                if after.contains(p) {
                    let k = choose|k: int| 0 <= k < after.len() && after[k] == p;
                    if k < before.len() {
                        assert(before[k] == p);
                    }
                }
                if before.contains(p) {
                    let k = choose|k: int| 0 <= k < before.len() && before[k] == p;
                    assert(after[k] == p);
                }
                if p == pid {
                    assert(after[i as int] == p);
                }
            }
            assert(r@.dom() =~= after.to_set());
        }
        i = i + 1;
    }
    assert(pids@.take(pids.len() as int) =~= pids@);
    r
}

/// What a liveness probe learned of each pid, given the report `ps` gave, or
/// `None` when it could not be asked or refused.
pub fn identities_from(stdout: Option<&str>, pids: &[u32]) -> (r: HashMap<u32, Liveness>)
    ensures
        r@.dom() == pids@.to_set(),
        stdout is None ==> forall|p: u32| pids@.contains(p) ==> r@[p] is Unreadable,
        stdout matches Some(text) ==> forall|p: u32|
            pids@.contains(p) ==> seen_in(#[trigger] r@[p], report_of(lines(text@)), p),
{
    broadcast use vstd::std_specs::hash::group_hash_axioms;

    let text = match stdout {
        None => {
            return unreadable(pids);
        },
        Some(text) => text,
    };
    let listed = parse_report(text);
    let ghost report = report_of(lines(text@));
    let mut r: HashMap<u32, Liveness> = HashMap::new();
    let mut i: usize = 0;
    while i < pids.len()
        invariant
            i <= pids.len(),
            texts(listed@) == report,
            r@.dom() == pids@.take(i as int).to_set(),
            forall|p: u32| pids@.take(i as int).contains(p) ==> seen_in(#[trigger] r@[p], report, p),
        decreases pids.len() - i,
    {
        let pid = pids[i];
        let seen = seen_as(listed.get(&pid));
        proof {
            assert(listed@.dom().contains(pid) == report.dom().contains(pid));
            if listed@.dom().contains(pid) {
                assert(report[pid] == listed@[pid]@);
            }
        }
        r.insert(pid, seen);
        proof {
            let before = pids@.take(i as int);
            let after = pids@.take(i + 1);
            assert(after =~= before.push(pid));
            assert forall|p: u32| after.contains(p) <==> (before.contains(p) || p == pid) by {
                if after.contains(p) {
                    let k = choose|k: int| 0 <= k < after.len() && after[k] == p;
                    if k < before.len() {
                        assert(before[k] == p);
                    }
                }
                if before.contains(p) {
                    let k = choose|k: int| 0 <= k < before.len() && before[k] == p;
                    assert(after[k] == p);
                }
                if p == pid {
                    assert(after[i as int] == p);
                }
            }
            assert(r@.dom() =~= after.to_set());
        }
        i = i + 1;
    }
    assert(pids@.take(pids.len() as int) =~= pids@);
    r
}

} // verus!
