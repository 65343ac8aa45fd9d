use vstd::prelude::*;

use crate::text::{chars_of, decimal, join, join_exec, push_decimal, push_signed_decimal, push_str,
    signed_decimal, string_of, views};

verus! {

pub const STATUS_CONNECTED: &'static str = "connected";
pub const STATUS_TIMED_OUT: &'static str = "error: health check timed out";
pub const MIGRATIONS_APPLIED_MESSAGE: &'static str = "Migrations applied successfully";

/// How the database answered a health check.
#[derive(Clone, Copy, Debug, PartialEq, Eq, Structural)]
pub enum DbHealthState {
    Connected,
    Failed,
    MigrationsPending,
}

/// The result of a health check of the database.
#[derive(Debug)]
pub struct DatabaseHealthStatus {
    pub status: String,
    pub migrations: Option<MigrationReadiness>,
    pub pool: Option<PoolStatus>,
    pub state: DbHealthState,
}

/// How many migrations ran and how many are still to run.
#[derive(Clone, Copy, Debug, PartialEq, Eq, Structural)]
pub struct MigrationReadiness {
    pub applied: i64,
    pub pending: i64,
}

/// The connections of the pool: open, idle, and the most it may open.
#[derive(Clone, Copy, Debug)]
pub struct PoolStatus {
    pub size: u32,
    pub idle: u32,
    pub max: u32,
}

/// How many migrations ran, of how many there are.
#[derive(Clone, Copy, Debug, PartialEq, Eq, Structural)]
pub struct MigrationCounts {
    pub applied: i64,
    pub total: i64,
}

/// `n`, or 0 when it is negative.
pub open spec fn at_least_zero(n: int) -> int {
    if n < 0 {
        0
    } else {
        n
    }
}

impl MigrationCounts {
    /// The migrations still to run; never negative.
    pub fn pending(&self) -> (r: i64)
        requires
            i64::MIN <= self.total - self.applied <= i64::MAX,
        ensures
            r == at_least_zero(self.total - self.applied),
    {
        let d = self.total - self.applied;
        if d < 0 {
            0
        } else {
            d
        }
    }
}

/// How far the migrations are, given how many ran and how many there are.
pub fn readiness(applied: i64, expected: i64) -> (r: MigrationReadiness)
    requires
        i64::MIN <= expected - applied <= i64::MAX,
    ensures
        r.applied == applied,
        r.pending == at_least_zero(expected - applied),
{
    let d = expected - applied;
    MigrationReadiness { applied, pending: if d < 0 { 0 } else { d } }
}

/// The status of a database that answered: connected, or waiting for
/// migrations when some are pending.
pub fn reachable_status(migrations: MigrationReadiness, pool: PoolStatus) -> (r: DatabaseHealthStatus)
    ensures
        r.status@ == STATUS_CONNECTED@,
        r.migrations == Some(migrations),
        r.pool matches Some(p) && p.size == pool.size && p.idle == pool.idle && p.max == pool.max,
        r.state == if migrations.pending > 0 {
            DbHealthState::MigrationsPending
        } else {
            DbHealthState::Connected
        },
{
    let state = if migrations.pending > 0 {
        DbHealthState::MigrationsPending
    } else {
        DbHealthState::Connected
    };
    DatabaseHealthStatus {
        status: STATUS_CONNECTED.to_string(),
        migrations: Some(migrations),
        pool: Some(pool),
        state,
    }
}

/// The status of a database whose health query failed with `error`.
pub fn failed_status(error: &str) -> (r: DatabaseHealthStatus)
    ensures
        r.status@ == "error: "@ + error@,
        r.migrations is None,
        r.pool is None,
        r.state == DbHealthState::Failed,
{
    let mut out = chars_of("error: ");
    push_str(&mut out, error);
    DatabaseHealthStatus {
        status: string_of(&out),
        migrations: None,
        pool: None,
        state: DbHealthState::Failed,
    }
}

/// The status of a database that did not answer in time.
pub fn timed_out_status() -> (r: DatabaseHealthStatus)
    ensures
        r.status@ == STATUS_TIMED_OUT@,
        r.migrations is None,
        r.pool is None,
        r.state == DbHealthState::Failed,
{
    DatabaseHealthStatus {
        status: STATUS_TIMED_OUT.to_string(),
        migrations: None,
        pool: None,
        state: DbHealthState::Failed,
    }
}

pub open spec fn migration_text(counts: MigrationCounts) -> Seq<char> {
    "Migrations: "@ + signed_decimal(counts.applied as int) + " applied, "@ + signed_decimal(
        at_least_zero(counts.total - counts.applied),
    ) + " pending (of "@ + signed_decimal(counts.total as int) + " total)"@
}

/// How far the migrations are, in words.
pub fn format_migration_status(counts: MigrationCounts) -> (r: String)
    requires
        i64::MIN <= counts.total - counts.applied <= i64::MAX,
    ensures
        r@ == migration_text(counts),
{
    let mut out = chars_of("Migrations: ");
    push_signed_decimal(&mut out, counts.applied);
    push_str(&mut out, " applied, ");
    push_signed_decimal(&mut out, counts.pending());
    push_str(&mut out, " pending (of ");
    push_signed_decimal(&mut out, counts.total);
    push_str(&mut out, " total)");
    string_of(&out)
}

pub open spec fn pool_text(pool: PoolStatus) -> Seq<char> {
    "Pool: "@ + decimal(
        if pool.size >= pool.idle {
            (pool.size - pool.idle) as nat
        } else {
            0
        },
    ) + " active, "@ + decimal(pool.idle as nat) + " idle, "@ + decimal(pool.max as nat)
        + " max"@
}

/// The lines of a status report: the database, its pool when known, then
/// its migrations or why they could not be counted.
pub open spec fn status_lines(
    health: DatabaseHealthStatus,
    counts: Result<MigrationCounts, Seq<char>>,
) -> Seq<Seq<char>> {
    let first = seq!["Database: "@ + health.status@];
    let lines = match health.pool {
        Some(p) => first.push(pool_text(p)),
        None => first,
    };
    match counts {
        Ok(c) => lines.push(migration_text(c)),
        Err(e) => lines.push("Migrations: error: "@ + e),
    }
}

pub open spec fn counts_view(counts: Result<MigrationCounts, &str>) -> Result<
    MigrationCounts,
    Seq<char>,
> {
    match counts {
        Ok(c) => Ok(c),
        Err(e) => Err(e@),
    }
}

/// A report on the database, one fact per line.
pub fn format_db_status_report(health: &DatabaseHealthStatus, counts: Result<MigrationCounts, &str>) -> (r:
    String)
    requires
        counts matches Ok(c) ==> i64::MIN <= c.total - c.applied <= i64::MAX,
    ensures
        r@ == join(status_lines(*health, counts_view(counts)), seq!['\n']),
{
    let mut lines: Vec<Vec<char>> = Vec::new();
    let mut first = chars_of("Database: ");
    push_str(&mut first, &health.status);
    lines.push(first);
    if let Some(pool) = &health.pool {
        let mut line = chars_of("Pool: ");
        let active = if pool.size >= pool.idle {
            pool.size - pool.idle
        } else {
            0
        };
        push_decimal(&mut line, active as u64);
        push_str(&mut line, " active, ");
        push_decimal(&mut line, pool.idle as u64);
        push_str(&mut line, " idle, ");
        push_decimal(&mut line, pool.max as u64);
        push_str(&mut line, " max");
        lines.push(line);
    }
    match counts {
        Ok(c) => {
            let text = format_migration_status(c);
            lines.push(chars_of(&text));
        },
        Err(e) => {
            let mut line = chars_of("Migrations: error: ");
            push_str(&mut line, e);
            lines.push(line);
        },
    }
    assert(views(lines@) =~= status_lines(*health, counts_view(counts)));
    let nl = ['\n'];
    assert(nl@ =~= seq!['\n']);
    let joined = join_exec(&lines, &nl);
    string_of(&joined)
}

} // verus!
