use pm3_adapters::describe::render_describe_with;
use pm3_adapters::domain::{
    EnvDisplay, EnvOrigin, ProcessView, StartKind, StartOutcome, SupervisionReply,
};
use pm3_adapters::http::{envelope, ProcessViewDto};
use pm3_adapters::presenter::{
    affected_service, already_running_names, deleted_names, format_cpu, format_env_origin,
    format_list, format_memory, format_notice, format_pid, format_resources, format_restarts,
    format_sandbox, format_sandbox_flags, format_uptime, pad, refused_names, render_batch,
    render_daemon_gone, render_daemon_stopped, render_reply, render_started, render_stopped_all,
    unsaved_reason, widest, EMPTY_NOTICE, NOTHING_STARTED,
};
use pm3_adapters::presenter::{format_clock, format_stamp};
use pm3_adapters::table::{local_offset_label, render_table, render_table_with, Listing};

fn view(id: u32, name: &str) -> ProcessViewDto {
    ProcessViewDto {
        pm_id: id,
        name: name.to_string(),
        pid: Some(4000 + id),
        status: "online".to_string(),
        restart_time: 0,
        unstable_restarts: 0,
        max_restarts: 10,
        autorestart: true,
        uptime_ms: Some(5000),
        next_fire_ms: None,
        schedule: None,
        sandbox_mode: "workspace-write".to_string(),
        sandbox_read: "minimal".to_string(),
        sandbox_network: false,
        env_origin: "plain".to_string(),
        env_declared: 0,
        env_masked: Vec::new(),
        script: "/bin/true".to_string(),
        args: Vec::new(),
        cwd: "/tmp".to_string(),
        depends_on: Vec::new(),
        writable_roots: Vec::new(),
        rss_kib: Some(2048),
        cpu_tenths: Some(15),
    }
}

fn process(name: &str) -> ProcessView {
    ProcessView {
        pm_id: 3,
        name: name.to_string(),
        pid: Some(77),
        status: "online".to_string(),
        restart_time: 2,
        unstable_restarts: 1,
        max_restarts: 10,
        autorestart: true,
        uptime_ms: Some(61_000),
        next_fire_ms: None,
        schedule: None,
        sandbox_mode: "workspace-write".to_string(),
        sandbox_read: "minimal".to_string(),
        sandbox_network: true,
        env_origin: EnvOrigin::Encrypted,
        env_declared: 1,
        env: vec![EnvDisplay {
            key: "TOKEN".to_string(),
            value: "***".to_string(),
            scope: "app".to_string(),
        }],
        script: "node".to_string(),
        args: vec!["server.js".to_string()],
        cwd: "/srv/web".to_string(),
        depends_on: Vec::new(),
        writable_roots: vec!["/srv/web".to_string()],
        rss_kib: Some(1536),
        cpu_tenths: Some(7),
    }
}

#[test]
fn memory_is_shown_in_kib_below_a_mib() {
    assert_eq!(format_memory(Some(512)), "512K");
    assert_eq!(format_memory(Some(1536)), "1.5M");
    assert_eq!(format_memory(None), "-");
}

#[test]
fn cpu_is_shown_in_percent_with_one_decimal() {
    assert_eq!(format_cpu(Some(123)), "12.3%");
    assert_eq!(format_cpu(Some(7)), "0.7%");
    assert_eq!(format_cpu(None), "-");
}

#[test]
fn uptime_uses_the_largest_unit_that_fits() {
    assert_eq!(format_uptime(Some(500)), "500ms");
    assert_eq!(format_uptime(Some(5_000)), "5s");
    assert_eq!(format_uptime(Some(120_000)), "2m");
    assert_eq!(format_uptime(Some(7_200_000)), "2h");
    assert_eq!(format_uptime(Some(2 * 86_400_000)), "2d");
    assert_eq!(format_uptime(None), "-");
}

#[test]
fn small_fields_have_their_forms() {
    assert_eq!(format_pid(Some(42)), "42");
    assert_eq!(format_pid(None), "-");
    assert_eq!(format_restarts(0), "-");
    assert_eq!(format_restarts(3), "3");
    assert_eq!(format_resources(Some(2048), Some(15)), "2.0M/1.5%");
    assert_eq!(format_resources(None, Some(15)), "-");
    assert_eq!(format_sandbox("read-only", true), "read-only+net");
    assert_eq!(format_sandbox("read-only", false), "read-only");
    assert_eq!(format_sandbox_flags("workspace-write", "full", true), "WRN");
    assert_eq!(format_sandbox_flags("danger-full-access", "minimal", false), "F--");
    assert_eq!(format_sandbox_flags("read-only", "minimal", false), "---");
    assert_eq!(format_env_origin(EnvOrigin::Plain, 1), "plain (1 value)");
    assert_eq!(format_env_origin(EnvOrigin::Sealed, 2), "encrypted, not opened (2 values)");
    assert_eq!(format_list(&vec![]), "-");
    assert_eq!(format_list(&vec!["a".to_string(), "b".to_string()]), "a, b");
    assert_eq!(pad("ab", 4), "ab  ");
    assert_eq!(pad("abcdef", 4), "abcdef");
    assert_eq!(widest(&vec![3, 9, 2]), 9);
    assert_eq!(widest(&vec![]), 0);
}

#[test]
fn notices_name_the_health_and_a_sealed_environment() {
    let mut v = view(1, "web");
    assert_eq!(format_notice(&v), "");
    v.unstable_restarts = 2;
    assert_eq!(format_notice(&v), "flapping:2");
    v.status = "errored".to_string();
    v.max_restarts = 2;
    assert_eq!(format_notice(&v), "breaker:2");
    v.max_restarts = 0;
    v.autorestart = false;
    v.env_origin = "sealed".to_string();
    assert_eq!(format_notice(&v), "noselfheal,env:sealed");
}

#[test]
fn an_empty_listing_says_nothing_is_managed() {
    assert_eq!(render_table(&[], Listing::Compact), EMPTY_NOTICE);
    assert_eq!(render_table_with(&[], Listing::Full, "(+00:00)", &vec![]), EMPTY_NOTICE);
}

#[test]
fn a_listing_is_sorted_by_name_and_aligned() {
    let views = vec![view(2, "zeta"), view(1, "alpha")];
    let clocks = vec!["-".to_string(), "-".to_string()];
    let text = render_table_with(&views, Listing::Compact, "(+00:00)", &clocks);
    let lines: Vec<&str> = text.lines().collect();
    assert_eq!(lines.len(), 3);
    assert_eq!(
        lines[0],
        "id name  status \u{21ba} uptime rss/cpu   next(+00:00) W/R/N"
    );
    assert_eq!(lines[1], "1  alpha online - 5s     2.0M/1.5% -            W--");
    assert_eq!(lines[2], "2  zeta  online - 5s     2.0M/1.5% -            W--");
}

#[test]
fn a_full_listing_shows_the_pid() {
    let views = vec![view(1, "web")];
    let clocks = vec!["09:30".to_string()];
    let text = render_table_with(&views, Listing::Full, "(+08:00)", &clocks);
    let lines: Vec<&str> = text.lines().collect();
    assert!(lines[0].starts_with("id name pid  status"));
    assert!(lines[1].contains("4001"));
    assert!(lines[1].contains("09:30"));
}

#[test]
fn the_offset_label_is_bracketed() {
    let label = local_offset_label();
    assert!(label.starts_with('('));
    assert!(label.ends_with(')'));
}

#[test]
fn a_listing_with_the_host_clock_names_every_service() {
    let views = vec![view(1, "b"), view(2, "a")];
    let text = render_table(&views, Listing::Compact);
    assert_eq!(text.lines().count(), 3);
    let a = text.find("\n2  a").expect("a is listed");
    let b = text.find("\n1  b").expect("b is listed");
    assert!(a < b);
}

#[test]
fn a_description_lists_fields_then_the_environment() {
    let text = render_describe_with(&process("web"), "2024-01-01 00:00:00 UTC+00:00");
    let lines: Vec<&str> = text.lines().collect();
    assert_eq!(lines[0], "id                 3");
    assert_eq!(lines[1], "name               web");
    assert_eq!(lines[5], "memory             1.5M");
    assert_eq!(lines[6], "cpu                0.7%");
    assert_eq!(lines[8], "unstable restarts  1");
    assert_eq!(lines[9], "schedule           -");
    assert_eq!(lines[12], "args               server.js");
    assert_eq!(lines[15], "sandbox            workspace-write+net");
    assert_eq!(lines[17], "env                encrypted (1 value)");
    assert_eq!(lines[18], "env TOKEN  ***  (app)");
    assert_eq!(lines.len(), 19);
}

#[test]
fn daemon_messages_tell_what_happened_to_services() {
    assert!(render_daemon_gone(None).len() > 0);
    let kept = render_daemon_stopped(None, 42);
    assert!(kept.starts_with("stopped the pm3 daemon (pid 42)"));
    assert!(kept.ends_with("; managed services keep running"));
    let gone = render_daemon_stopped(Some("web"), 42);
    assert!(!gone.ends_with("; managed services keep running"));
}

#[test]
fn batch_messages_list_the_names() {
    let names = vec!["a".to_string(), "b".to_string()];
    assert_eq!(render_batch("restarted", "restart", &names), "restarted a, b");
    assert_eq!(render_batch("restarted", "restart", &vec![]), "no apps to restart");
    assert_eq!(render_stopped_all(&names), "stopped a, b");
    assert_eq!(render_stopped_all(&vec![]), "no services were running");
}

#[test]
fn a_start_report_has_a_line_per_service() {
    let outcomes = vec![
        StartOutcome { pm_id: 0, name: "web".to_string(), pid: Some(9), kind: StartKind::Spawned },
        StartOutcome {
            pm_id: 1,
            name: "db".to_string(),
            pid: None,
            kind: StartKind::AlreadyRunning,
        },
        StartOutcome { pm_id: 2, name: "q".to_string(), pid: None, kind: StartKind::Deferred },
    ];
    let text = render_started(&outcomes, Some("depends on x"), Some("disk full"));
    let lines: Vec<&str> = text.lines().collect();
    assert_eq!(lines[0], "started web (id 0, pid 9)");
    assert_eq!(lines[1], "db is already running (id 1, pid -)");
    assert_eq!(lines[2], "queued q until its dependency becomes ready (id 2, pid -)");
    assert_eq!(lines[3], "cannot start the rest of the batch: depends on x");
    assert_eq!(lines[4], "cannot record what pm3 just started: disk full");
    assert_eq!(render_started(&vec![], None, None), NOTHING_STARTED);
}

#[test]
fn replies_are_rendered_and_enveloped() {
    let started = SupervisionReply::Started {
        outcomes: vec![StartOutcome {
            pm_id: 1,
            name: "db".to_string(),
            pid: Some(5),
            kind: StartKind::AlreadyRunning,
        }],
        refused: vec!["x".to_string()],
        reason: None,
        unsaved: Some("disk full".to_string()),
    };
    assert_eq!(already_running_names(&started), vec!["db".to_string()]);
    assert_eq!(refused_names(&started), vec!["x".to_string()]);
    assert_eq!(unsaved_reason(&started), Some("disk full".to_string()));
    assert_eq!(affected_service(&started), None);
    let body = envelope(&started);
    assert_eq!(body.report, "db is already running (id 1, pid 5)\ncannot record what pm3 just started: disk full");
    assert_eq!(body.already_running, vec!["db".to_string()]);

    let signalled = SupervisionReply::Signalled { name: "web".to_string(), signal: "HUP".to_string() };
    assert_eq!(render_reply(&signalled), "sent HUP to web");
    assert_eq!(affected_service(&signalled), Some("web".to_string()));

    let deleted = SupervisionReply::DeletedAll { names: vec!["a".to_string()] };
    assert_eq!(render_reply(&deleted), "deleted a");
    assert_eq!(deleted_names(&deleted), vec!["a".to_string()]);

    let stopped = SupervisionReply::Stopped { name: "web".to_string() };
    assert_eq!(render_reply(&stopped), "stopped web");
    assert_eq!(render_reply(&SupervisionReply::Listed(vec![])), EMPTY_NOTICE);
    let described = render_reply(&SupervisionReply::Described(process("api")));
    assert!(described.contains("name               api"));
}

#[test]
fn a_view_is_carried_over_to_its_transfer_form() {
    let dto = ProcessViewDto::from_view(&process("web"));
    assert_eq!(dto.name, "web");
    assert_eq!(dto.env_origin, "encrypted");
    assert_eq!(dto.env_masked.len(), 1);
    assert_eq!(dto.env_masked[0].key, "TOKEN");
    assert_eq!(dto.args, vec!["server.js".to_string()]);
}

fn digits_at(t: &str, places: &[usize]) -> bool {
    let b = t.as_bytes();
    places.iter().all(|&i| b[i].is_ascii_digit())
}

#[test]
fn clock_stamp_and_offset_have_their_shapes() {
    let clock = format_clock(Some(0));
    assert_eq!(clock.len(), 5);
    assert_eq!(clock.as_bytes()[2], b':');
    assert!(digits_at(&clock, &[0, 1, 3, 4]));
    let stamp = format_stamp(Some(1_700_000_000_000));
    assert_eq!(stamp.len(), 29);
    assert_eq!(&stamp[19..23], " UTC");
    assert_eq!(&stamp[4..5], "-");
    assert_eq!(&stamp[10..11], " ");
    assert_eq!(stamp.as_bytes()[26], b':');
    assert!(matches!(stamp.as_bytes()[23], b'+' | b'-'));
    assert!(digits_at(&stamp, &[0, 1, 2, 3, 5, 6, 8, 9, 11, 12, 14, 15, 17, 18, 24, 25, 27, 28]));
    let label = local_offset_label();
    assert_eq!(label.len(), 8);
    assert!(label.starts_with('(') && label.ends_with(')'));
    assert_eq!(label.as_bytes()[4], b':');
    assert!(matches!(label.as_bytes()[1], b'+' | b'-'));
    assert_eq!(format_clock(None), "-");
    assert_eq!(format_stamp(Some(u64::MAX)), "-");
}
